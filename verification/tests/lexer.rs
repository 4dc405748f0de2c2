//! The template lexer: marker scanning, classification, merging, and the
//! used-identifier report.
use cio::formatext::{parse_format_string, FormatToken};

#[test]
fn plain_variable_and_text() {
    let (tokens, used) = parse_format_string("Hello {name}");
    assert_eq!(tokens.len(), 2);
    match &tokens[0] {
        FormatToken::Text { content } => assert_eq!(content, "Hello "),
        other => panic!("expected text, got {:?}", other),
    }
    match &tokens[1] {
        FormatToken::Variable { name, format, format_args } => {
            assert_eq!(name, "name");
            assert!(format.is_none());
            assert!(format_args.is_none());
        },
        other => panic!("expected variable, got {:?}", other),
    }
    assert_eq!(used, vec!["name".to_string()]);
}

#[test]
fn style_change_text_and_reset() {
    let (tokens, used) = parse_format_string("@(red, bold)Hi@()");
    assert_eq!(tokens.len(), 3);
    match &tokens[0] {
        FormatToken::StyleChange { style_specs } => {
            assert_eq!(style_specs, &vec!["red".to_string(), "bold".to_string()]);
        },
        other => panic!("expected style change, got {:?}", other),
    }
    match &tokens[1] {
        FormatToken::Text { content } => assert_eq!(content, "Hi"),
        other => panic!("expected text, got {:?}", other),
    }
    assert!(matches!(&tokens[2], FormatToken::StyleReset));
    assert!(used.is_empty());
}

#[test]
fn unrecognized_style_content_is_a_style_variable() {
    let (tokens, _) = parse_format_string("@(color_var)text");
    match &tokens[0] {
        FormatToken::StyleVariable { name } => assert_eq!(name, "color_var"),
        other => panic!("expected style variable, got {:?}", other),
    }
}

#[test]
fn style_list_keeps_unknown_terms() {
    let (tokens, _) = parse_format_string("@(red, mystery)");
    match &tokens[0] {
        FormatToken::StyleChange { style_specs } => {
            assert_eq!(style_specs, &vec!["red".to_string(), "mystery".to_string()]);
        },
        other => panic!("expected style change, got {:?}", other),
    }
}

#[test]
fn interpolated_style_consumes_inner_variable() {
    let (tokens, used) = parse_format_string("@({color})warm");
    assert_eq!(tokens.len(), 2);
    match &tokens[0] {
        FormatToken::StyleVariable { name } => assert_eq!(name, "color"),
        other => panic!("expected style variable, got {:?}", other),
    }
    match &tokens[1] {
        FormatToken::Text { content } => assert_eq!(content, "warm"),
        other => panic!("expected text, got {:?}", other),
    }
    assert_eq!(used, vec!["color".to_string()]);
}

#[test]
fn same_name_outside_the_style_marker_still_renders() {
    let (tokens, used) = parse_format_string("@({c}) {c}");
    assert_eq!(tokens.len(), 3);
    assert!(matches!(&tokens[0], FormatToken::StyleVariable { .. }));
    assert!(matches!(&tokens[1], FormatToken::Text { .. }));
    match &tokens[2] {
        FormatToken::Variable { name, .. } => assert_eq!(name, "c"),
        other => panic!("expected variable, got {:?}", other),
    }
    assert_eq!(used, vec!["c".to_string(), "c".to_string()]);
}

#[test]
fn format_specifier_is_split_at_the_colon() {
    let (tokens, _) = parse_format_string("{x:>8.2}");
    match &tokens[0] {
        FormatToken::Variable { name, format, format_args } => {
            assert_eq!(name, "x");
            assert_eq!(format.as_deref(), Some(">8.2"));
            assert!(format_args.is_none());
        },
        other => panic!("expected variable, got {:?}", other),
    }
}

#[test]
fn table_format_with_arguments() {
    let (tokens, _) = parse_format_string("{data:t(Country, Capital)}");
    match &tokens[0] {
        FormatToken::Variable { name, format, format_args } => {
            assert_eq!(name, "data");
            assert_eq!(format.as_deref(), Some("t"));
            assert_eq!(
                format_args,
                &Some(vec!["Country".to_string(), "Capital".to_string()]),
            );
        },
        other => panic!("expected variable, got {:?}", other),
    }
}

#[test]
fn trailing_colon_joins_the_expression() {
    let (tokens, _) = parse_format_string("{a:}");
    match &tokens[0] {
        FormatToken::Variable { name, format, .. } => {
            assert_eq!(name, "a:");
            assert!(format.is_none());
        },
        other => panic!("expected variable, got {:?}", other),
    }
}

#[test]
fn member_access_is_not_a_used_identifier() {
    let (tokens, used) = parse_format_string("{x.y} {a + b}");
    assert_eq!(tokens.len(), 3);
    assert!(used.is_empty());
    match &tokens[0] {
        FormatToken::Variable { name, .. } => assert_eq!(name, "x.y"),
        other => panic!("expected variable, got {:?}", other),
    }
}

#[test]
fn unmatched_markers_stay_literal_text() {
    let (tokens, used) = parse_format_string("open { brace @( tail");
    assert_eq!(tokens.len(), 1);
    match &tokens[0] {
        FormatToken::Text { content } => assert_eq!(content, "open { brace @( tail"),
        other => panic!("expected text, got {:?}", other),
    }
    assert!(used.is_empty());
}

#[test]
fn empty_braces_are_literal_text() {
    let (tokens, _) = parse_format_string("{}");
    assert_eq!(tokens.len(), 1);
    assert!(matches!(&tokens[0], FormatToken::Text { .. }));
}

#[test]
fn markers_merge_by_position() {
    let (tokens, _) = parse_format_string("{a}@(red){b}");
    assert_eq!(tokens.len(), 3);
    assert!(matches!(&tokens[0], FormatToken::Variable { .. }));
    assert!(matches!(&tokens[1], FormatToken::StyleChange { .. }));
    assert!(matches!(&tokens[2], FormatToken::Variable { .. }));
}

#[test]
fn empty_template_has_no_tokens() {
    let (tokens, used) = parse_format_string("");
    assert!(tokens.is_empty());
    assert!(used.is_empty());
}
