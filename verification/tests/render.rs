//! The renderer and the separator policy.
use cio::render::{plan_render, render, separator_output, SeparatorKind};

fn no_res() -> Vec<String> {
    Vec::new()
}

#[test]
fn text_only_render_ends_with_reset() {
    let plan = plan_render("hello");
    assert!(!plan.no_newline);
    assert!(matches!(plan.separator, SeparatorKind::Absent));
    let out = render(&plan.tokens, &no_res());
    assert_eq!(out, "hello\x1B[0m");
}

#[test]
fn style_change_resets_before_applying() {
    let plan = plan_render("@(red)X@()");
    let out = render(&plan.tokens, &no_res());
    assert_eq!(out, "\x1B[0m\x1B[31mX\x1B[0m\x1B[0m");
}

#[test]
fn consecutive_styles_replace_not_combine() {
    let plan = plan_render("@(red)@(bold)X");
    let out = render(&plan.tokens, &no_res());
    assert_eq!(out, "\x1B[0m\x1B[31m\x1B[0m\x1B[1mX\x1B[0m");
}

#[test]
fn variable_resolution_is_inserted() {
    let plan = plan_render("Hello {name}!");
    let out = render(&plan.tokens, &vec!["World".to_string()]);
    assert_eq!(out, "Hello World!\x1B[0m");
}

#[test]
fn style_variable_value_is_split_and_resolved() {
    let plan = plan_render("@(style_var)X");
    let out = render(&plan.tokens, &vec!["red, bold".to_string()]);
    assert_eq!(out, "\x1B[0m\x1B[31;1mX\x1B[0m");
}

#[test]
fn interpolated_style_value_is_split_and_resolved() {
    let plan = plan_render("@({style})X");
    let out = render(&plan.tokens, &vec!["green".to_string()]);
    assert_eq!(out, "\x1B[0m\x1B[32mX\x1B[0m");
}

#[test]
fn matrix_format_runs_through_the_formatter() {
    let plan = plan_render("{m:m}");
    let out = render(&plan.tokens, &vec!["[[4, 3], [2, 1]]".to_string()]);
    assert_eq!(out, "⎛  4  3  ⎞\n⎝  2  1  ⎠\n\x1B[0m");
}

#[test]
fn compact_format_passes_the_resolution_through() {
    let plan = plan_render("{v:c}");
    let out = render(&plan.tokens, &vec!["[1, 2]".to_string()]);
    assert_eq!(out, "[1, 2]\x1B[0m");
}

#[test]
fn passthrough_format_uses_the_resolved_text() {
    let plan = plan_render("{x:>8.2}");
    let out = render(&plan.tokens, &vec!["    3.14".to_string()]);
    assert_eq!(out, "    3.14\x1B[0m");
}

#[test]
fn missing_resolution_renders_empty() {
    let plan = plan_render("[{x}]");
    let out = render(&plan.tokens, &no_res());
    assert_eq!(out, "[]\x1B[0m");
}

#[test]
fn separator_literal_is_stripped_and_reported() {
    let plan = plan_render("Loading$(...)");
    assert!(plan.no_newline);
    match &plan.separator {
        SeparatorKind::LiteralText { text } => assert_eq!(text, "..."),
        other => panic!("expected literal separator, got a different kind: {}", kind_name(other)),
    }
    let out = render(&plan.tokens, &no_res());
    assert_eq!(out, "Loading\x1B[0m");
}

#[test]
fn separator_identifier_resolves_as_a_variable() {
    let plan = plan_render("Status$(sep)");
    match &plan.separator {
        SeparatorKind::VariableRef { name } => assert_eq!(name, "sep"),
        other => panic!("expected variable separator, got: {}", kind_name(other)),
    }
    assert_eq!(separator_output(&plan.separator, " | "), " | ");
}

#[test]
fn empty_string_separator_emits_nothing() {
    let plan = plan_render("prompt: $(\"\")");
    assert!(plan.no_newline);
    match &plan.separator {
        SeparatorKind::LiteralText { text } => assert_eq!(text, ""),
        other => panic!("expected literal separator, got: {}", kind_name(other)),
    }
    assert_eq!(separator_output(&plan.separator, "ignored"), "");
}

#[test]
fn separator_only_counts_at_the_end() {
    let plan = plan_render("a$(x)b");
    assert!(!plan.no_newline);
    assert!(matches!(plan.separator, SeparatorKind::Absent));
    let out = render(&plan.tokens, &no_res());
    assert_eq!(out, "a$(x)b\x1B[0m");
}

#[test]
fn progressive_line_from_ten_calls() {
    let mut screen = String::new();
    for i in 1..=9 {
        let plan = plan_render("{i}$( - )");
        assert!(plan.no_newline);
        let out = render(&plan.tokens, &vec![i.to_string()]);
        screen.push_str(&out);
        screen.push_str(&separator_output(&plan.separator, ""));
    }
    let plan = plan_render("10");
    assert!(!plan.no_newline);
    let out = render(&plan.tokens, &no_res());
    screen.push_str(&out);
    screen.push('\n');
    let visible = screen.replace("\x1B[0m", "");
    assert_eq!(visible, "1 - 2 - 3 - 4 - 5 - 6 - 7 - 8 - 9 - 10\n");
    let expected = "1\x1B[0m - 2\x1B[0m - 3\x1B[0m - 4\x1B[0m - 5\x1B[0m - 6\x1B[0m - 7\x1B[0m - 8\x1B[0m - 9\x1B[0m - 10\x1B[0m\n";
    assert_eq!(screen, expected);
}

#[test]
fn used_vars_survive_the_plan() {
    let plan = plan_render("@({c}){x} {y.z}$(tail)");
    assert_eq!(plan.used_vars, vec!["c".to_string(), "x".to_string()]);
}

fn kind_name(kind: &SeparatorKind) -> &'static str {
    match kind {
        SeparatorKind::Absent => "absent",
        SeparatorKind::VariableRef { .. } => "variable",
        SeparatorKind::LiteralText { .. } => "literal",
    }
}
