//! The container, matrix and determinant formatters.
use cio::fmtbasic::format_container;
use cio::fmtmath::{format_determinant, format_matrix};

const DET_FALLBACK: &str = "Determinant undefined: requires a square matrix with at least 2 rows";

#[test]
fn flat_sequences_pass_through() {
    assert_eq!(format_container("[1, 2, 3]"), "[1, 2, 3]");
    assert_eq!(format_container("plain text"), "plain text");
    assert_eq!(format_container("[]"), "[]");
}

#[test]
fn depth_two_breaks_the_outer_list_open() {
    assert_eq!(format_container("[[1, 2], [3, 4]]"), "[\n  [1, 2],\n  [3, 4]\n]");
}

#[test]
fn depth_two_patterns_ignore_quoted_brackets() {
    assert_eq!(
        format_container("[[\"a]b\", \"c\"], [\"d\"]]"),
        "[\n  [\"a]b\", \"c\"],\n  [\"d\"]\n]",
    );
}

#[test]
fn three_level_nesting_expands_one_element_per_line() {
    let got = format_container("[[[1, 2], [3, 4]], [[5, 6]]]");
    let want = "[\n  [\n    [\n      1,\n      2\n    ],\n    [\n      3,\n      4\n    ]\n  ],\n  [\n    [\n      5,\n      6\n    ]\n  ]\n]";
    assert_eq!(got, want);
}

#[test]
fn expansion_indents_two_spaces_per_level() {
    let got = format_container("[[[9]]]");
    assert_eq!(got, "[\n  [\n    [\n      9\n    ]\n  ]\n]");
    for line in got.lines() {
        let depth_markers = ['[', ']', '9'];
        let indent = line.len() - line.trim_start().len();
        assert_eq!(indent % 2, 0);
        assert!(line.trim_start().starts_with(depth_markers));
    }
}

#[test]
fn two_by_two_matrix_rows_and_glyphs() {
    let got = format_matrix("[[4, 3], [2, 1]]");
    let lines: Vec<&str> = got.lines().collect();
    assert_eq!(lines.len(), 2);
    assert_eq!(lines[0], "\u{239b}  4  3  \u{239e}");
    assert_eq!(lines[1], "\u{239d}  2  1  \u{23a0}");
    assert_eq!(got, "⎛  4  3  ⎞\n⎝  2  1  ⎠\n");
}

#[test]
fn single_row_matrix_uses_round_shells() {
    assert_eq!(format_matrix("[[7, 8]]"), "⦅  7  8  ⦆\n");
}

#[test]
fn middle_rows_use_vertical_bars() {
    let got = format_matrix("[[1], [2], [3]]");
    assert_eq!(got, "⎛  1  ⎞\n│  2  │\n⎝  3  ⎠\n");
}

#[test]
fn matrix_columns_align_right() {
    let got = format_matrix("[[100, 2], [3, 40]]");
    assert_eq!(got, "⎛  100   2  ⎞\n⎝    3  40  ⎠\n");
}

#[test]
fn malformed_matrix_falls_back_to_the_representation() {
    assert_eq!(format_matrix("[1, 2, 3]"), "[1, 2, 3]");
    assert_eq!(format_matrix("not a matrix"), "not a matrix");
    assert_eq!(format_matrix("[]"), "[]");
}

#[test]
fn determinant_uses_vertical_bars_everywhere() {
    let got = format_determinant("[[4, 3], [2, 1]]");
    let lines: Vec<&str> = got.lines().collect();
    assert_eq!(lines.len(), 2);
    assert_eq!(lines[0], "│  4  3  │");
    assert_eq!(lines[1], "│  2  1  │");
}

#[test]
fn single_row_determinant_is_undefined() {
    assert_eq!(format_determinant("[[1, 2, 3]]"), DET_FALLBACK);
}

#[test]
fn non_square_determinant_is_undefined() {
    assert_eq!(format_determinant("[[1, 2, 3], [4, 5, 6]]"), DET_FALLBACK);
}

#[test]
fn unparseable_determinant_is_undefined() {
    assert_eq!(format_determinant("nonsense"), DET_FALLBACK);
}

#[test]
fn square_three_by_three_determinant() {
    let got = format_determinant("[[1, 2, 3], [4, 5, 6], [7, 8, 9]]");
    assert_eq!(got, "│  1  2  3  │\n│  4  5  6  │\n│  7  8  9  │\n");
}
