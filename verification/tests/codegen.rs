//! The output-code generator.
use cio::formatext::{generate_output_code, parse_format_string};

#[test]
fn text_token_becomes_an_escaped_push() {
    let (tokens, _) = parse_format_string("Hi \"there\"\n");
    let segments = generate_output_code(&tokens, false);
    assert_eq!(segments.len(), 3);
    assert_eq!(segments[0], "result.push_str(\"Hi \\\"there\\\"\\n\");");
    assert_eq!(segments[1], "result.push_str(\"\\x1B[0m\");");
    assert_eq!(
        segments[2],
        "print!(\"{}\n\", result); std::io::stdout().flush().expect(\"Failed to flush stdout\");",
    );
}

#[test]
fn no_newline_changes_the_print_line() {
    let (tokens, _) = parse_format_string("x");
    let segments = generate_output_code(&tokens, true);
    assert_eq!(
        segments[segments.len() - 1],
        "print!(\"{}\", result); std::io::stdout().flush().expect(\"Failed to flush stdout\");",
    );
}

#[test]
fn style_change_embeds_the_resolved_escape_sequence() {
    let (tokens, _) = parse_format_string("@(red, bold)");
    let segments = generate_output_code(&tokens, false);
    assert_eq!(segments[0], "result.push_str(\"\\x1B[0m\");");
    assert_eq!(segments[1], "result.push_str(\"\x1B[31;1m\");");
}

#[test]
fn style_variable_splits_its_value_at_runtime() {
    let (tokens, _) = parse_format_string("@(style_var)");
    let segments = generate_output_code(&tokens, false);
    assert_eq!(
        segments[1],
        "let style_specs = style_var.split(',').map(|s| s.trim().to_string()).collect::<Vec<String>>();",
    );
    assert_eq!(
        segments[2],
        "let ansi = colorstyle_internal::ansi_code_for_style(&style_specs);",
    );
    assert_eq!(segments[3], "result.push_str(&ansi);");
}

#[test]
fn variable_formats_dispatch_to_their_helpers() {
    let cases = [
        ("{v}", "result.push_str(&(format!(\"{}\", v)));"),
        ("{v:a}", "result.push_str(&(format_container(&v)));"),
        ("{v:c}", "result.push_str(&(format!(\"{:?}\", v)));"),
        ("{v:j}", "result.push_str(&(format!(\"{:#?}\", v)));"),
        ("{v:m}", "result.push_str(&(format_matrix(&v)));"),
        ("{v:d}", "result.push_str(&(format_determinant(&v)));"),
        ("{v:t}", "result.push_str(&(format_table(&v, &Vec::<String>::new(), \"bright_blue\")));"),
        ("{v:>8}", "result.push_str(&(format!(\"{:>8}\", v)));"),
    ];
    for (template, expected) in cases {
        let (tokens, _) = parse_format_string(template);
        let segments = generate_output_code(&tokens, false);
        assert_eq!(segments[0], expected, "for template {}", template);
    }
}

#[test]
fn table_headers_become_string_constructors() {
    let (tokens, _) = parse_format_string("{v:t(A, B)}");
    let segments = generate_output_code(&tokens, false);
    assert_eq!(
        segments[0],
        "result.push_str(&(format_table(&v, &vec![String::from(\"A\"), String::from(\"B\")], \"bright_blue\")));",
    );
}

#[test]
fn empty_template_still_resets_and_prints() {
    let (tokens, _) = parse_format_string("");
    let segments = generate_output_code(&tokens, false);
    assert_eq!(segments.len(), 2);
    assert_eq!(segments[0], "result.push_str(\"\\x1B[0m\");");
}
