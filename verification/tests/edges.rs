//! Edge cases: whitespace in marker content, unclosed markers, quoted
//! cells, and unquoted scalar values.
use cio::fmtbasic::format_container;
use cio::fmtmath::format_matrix;
use cio::fmttable::format_table;
use cio::formatext::{parse_format_string, FormatToken};

#[test]
fn style_terms_are_trimmed_around_commas() {
    let (tokens, _) = parse_format_string("@( red ,  bold )");
    match &tokens[0] {
        FormatToken::StyleChange { style_specs } => {
            assert_eq!(style_specs, &vec!["red".to_string(), "bold".to_string()]);
        },
        other => panic!("expected style change, got {:?}", other),
    }
}

#[test]
fn unclosed_style_marker_stays_text() {
    let (tokens, _) = parse_format_string("@(red");
    assert_eq!(tokens.len(), 1);
    match &tokens[0] {
        FormatToken::Text { content } => assert_eq!(content, "@(red"),
        other => panic!("expected text, got {:?}", other),
    }
}

#[test]
fn style_marker_content_never_crosses_a_closing_paren() {
    let (tokens, _) = parse_format_string("@(red)done)");
    assert_eq!(tokens.len(), 2);
    match &tokens[1] {
        FormatToken::Text { content } => assert_eq!(content, "done)"),
        other => panic!("expected text, got {:?}", other),
    }
}

#[test]
fn matrix_keeps_quoted_cells_verbatim() {
    let got = format_matrix("[[\"a]b\"]]");
    assert_eq!(got, "⦅  \"a]b\"  ⦆\n");
}

#[test]
fn container_depth_counts_ignore_quoted_brackets() {
    assert_eq!(format_container("[\"[deep]\"]"), "[\"[deep]\"]");
}

#[test]
fn table_keeps_unquoted_scalars() {
    let got = format_table("{\"a\": 1, \"b\": 22}", &Vec::new(), "bright_blue");
    assert!(got.contains("│ a   │ 1     │"));
    assert!(got.contains("│ b   │ 22    │"));
}

#[test]
fn whitespace_only_style_content_is_an_empty_style_variable() {
    let (tokens, _) = parse_format_string("@(  )");
    match &tokens[0] {
        FormatToken::StyleVariable { name } => assert_eq!(name, ""),
        other => panic!("expected style variable, got {:?}", other),
    }
}
