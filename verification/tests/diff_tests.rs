use dotpatina::diff::DiffAnalysis;
use dotpatina::diff::TextDiff;

fn build_test_diff() -> TextDiff {
    let old = r#"
        AAA
        BBB
        CCC
        "#;
    let new = r#"
        AAA
        CCC
        DDD
        "#;
    TextDiff::from_lines(old, new)
}

#[test]
fn test_diff_analysis_any_changes_no_changes() {
    let old = "this is some text";
    let new = "this is some text";
    let diff = TextDiff::from_lines(old, new);

    assert!(!diff.any_changes())
}

#[test]
fn test_diff_analysis_any_changes_deleted_line() {
    let old = r#"
        AAA
        BBB
        CCC
        "#;
    let new = r#"
        AAA
        CCC
        "#;
    let diff = TextDiff::from_lines(old, new);

    assert!(diff.any_changes())
}

#[test]
fn test_diff_analysis_any_changes_added_line() {
    let diff = build_test_diff();
    assert!(diff.any_changes())
}

#[test]
fn test_diff_to_string() {
    let diff = build_test_diff();
    let result = diff.to_string();

    let expected_lines = [
        "  1 1 | ",
        "  2 2 |         AAA",
        "- 3   |         BBB",
        "  4 3 |         CCC",
        "+   4 |         DDD",
        "  5 5 |         ",
        "",
    ];
    assert_eq!(result, expected_lines.join("\n"));
}

#[test]
fn test_diff_to_string_with_skipped_lines() {
    let old = r#"[alias]
    lg = !git lg1
    lg1 = !git lg1-specific --all
    lg2 = !git lg2-specific --all
    lg3 = !git lg3-specific --all

[pager]
    branch = false

[core]
    editor = vim

[pull]
    rebase = false

[init]
    defaultBranch = main

[filter "lfs"]
    clean = git-lfs clean -- %f
    smudge = git-lfs smudge -- %f
    process = git-lfs filter-process
    required = true
"#;
    let new = r#"[alias]
    lg = !git lg1
    lg1 = !git lg1-specific --all

[pager]
    branch = false

[core]
    editor = vim

[pull]
    rebase = false

[init]
    defaultBranch = main

[filter "lfs"]
    clean = git-lfs clean -- %f
    smudge = git-lfs smudge -- %f
    process = git-lfs filter-process
    required = true

[fetch]
    prune = true
"#;
    let diff = TextDiff::from_lines(old, new);

    let result = diff.to_string();
    let expected_lines = [
        "   1  1 | [alias]",
        "   2  2 |     lg = !git lg1",
        "   3  3 |     lg1 = !git lg1-specific --all",
        "-  4    |     lg2 = !git lg2-specific --all",
        "-  5    |     lg3 = !git lg3-specific --all",
        "   6  4 | ",
        "   7  5 | [pager]",
        "   8  6 |     branch = false",
        "   9  7 | ",
        "",
        "... 10 unchanged lines",
        "",
        "  20 18 |     clean = git-lfs clean -- %f",
        "  21 19 |     smudge = git-lfs smudge -- %f",
        "  22 20 |     process = git-lfs filter-process",
        "  23 21 |     required = true",
        "+    22 | ",
        "+    23 | [fetch]",
        "+    24 |     prune = true",
        "",
    ];
    assert_eq!(result, expected_lines.join("\n"));
}

#[test]
fn test_diff_to_string_with_skipped_lines_at_the_start_and_end() {
    let old = r#"[alias]
    lg = !git lg1
    lg1 = !git lg1-specific --all
    lg2 = !git lg2-specific --all
    lg3 = !git lg3-specific --all

[pager]
    branch = false

[core]
    editor = vim

[pull]
    rebase = false

[init]
    defaultBranch = main

[filter "lfs"]
    clean = git-lfs clean -- %f
    smudge = git-lfs smudge -- %f
    process = git-lfs filter-process
    required = true
"#;
    let new = r#"[alias]
    lg = !git lg1
    lg1 = !git lg1-specific --all
    lg2 = !git lg2-specific --all
    lg3 = !git lg3-specific --all

[pager]
    branch = false

[pull]
    rebase = false

[init]
    defaultBranch = main

[filter "lfs"]
    clean = git-lfs clean -- %f
    smudge = git-lfs smudge -- %f
    process = git-lfs filter-process
    required = true
"#;

    let diff = TextDiff::from_lines(old, new);

    let result = diff.to_string();
    let expected_lines = [
        "",
        "... 5 unchanged lines",
        "",
        "   6  6 | ",
        "   7  7 | [pager]",
        "   8  8 |     branch = false",
        "   9  9 | ",
        "- 10    | [core]",
        "- 11    |     editor = vim",
        "- 12    | ",
        "  13 10 | [pull]",
        "  14 11 |     rebase = false",
        "  15 12 | ",
        "  16 13 | [init]",
        "",
        "... 7 unchanged lines",
        "",
        "",
    ];
    assert_eq!(result, expected_lines.join("\n"));
}

#[test]
fn test_diff_to_string_no_changes() {
    let old = r#"aaa
        bbb
        ccc"#;
    let new = r#"aaa
        bbb
        ccc"#;

    let diff = TextDiff::from_lines(old, new);

    let result = diff.to_string();
    let expected_lines = ["3 lines, no changes detected", ""];
    assert_eq!(result, expected_lines.join("\n"));
}

#[test]
fn test_diff_identical_texts_summary() {
    let text = "alpha\nbeta\ngamma\ndelta\n";
    let diff = TextDiff::from_lines(text, text);
    assert!(!diff.any_changes());
    assert_eq!(diff.to_string(), "4 lines, no changes detected\n");
}

#[test]
fn test_diff_gap_compression_single_change() {
    // One changed line surrounded by ten unchanged lines on each side:
    // exactly one hidden-run marker before and one after, each counting
    // the lines outside the four-line window around the change.
    let old = "l01\nl02\nl03\nl04\nl05\nl06\nl07\nl08\nl09\nl10\nmid old\nl12\nl13\nl14\nl15\nl16\nl17\nl18\nl19\nl20\nl21\n";
    let new = "l01\nl02\nl03\nl04\nl05\nl06\nl07\nl08\nl09\nl10\nmid new\nl12\nl13\nl14\nl15\nl16\nl17\nl18\nl19\nl20\nl21\n";
    let diff = TextDiff::from_lines(old, new);
    assert!(diff.any_changes());
    let result = diff.to_string();
    let expected_lines = [
        "",
        "... 6 unchanged lines",
        "",
        "   7  7 | l07",
        "   8  8 | l08",
        "   9  9 | l09",
        "  10 10 | l10",
        "- 11    | mid old",
        "+    11 | mid new",
        "  12 12 | l12",
        "  13 13 | l13",
        "  14 14 | l14",
        "  15 15 | l15",
        "",
        "... 6 unchanged lines",
        "",
        "",
    ];
    assert_eq!(result, expected_lines.join("\n"));
}
