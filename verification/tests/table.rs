//! The table formatter.
use cio::fmttable::format_table;

fn headers(v: &[&str]) -> Vec<String> {
    v.iter().map(|x| x.to_string()).collect()
}

const BLUE_BOLD: &str = "\x1B[94;1m";
const BLUE_BOLD_ITALIC: &str = "\x1B[94;1;3m";
const RESET: &str = "\x1B[0m";

#[test]
fn flat_map_renders_two_columns_with_given_headers() {
    let repr = "{\"France\": \"Paris\", \"Germany\": \"Berlin\"}";
    let got = format_table(repr, &headers(&["Country", "Capital"]), "bright_blue");
    let lines: Vec<&str> = got.lines().collect();
    assert_eq!(lines.len(), 6);
    assert_eq!(lines[0], "┌─────────┬─────────┐");
    assert_eq!(
        lines[1],
        format!("│ {}Country{} │ {}Capital{} │", BLUE_BOLD, RESET, BLUE_BOLD, RESET),
    );
    assert_eq!(lines[2], "├─────────┼─────────┤");
    assert_eq!(lines[3], "│ France  │ Paris   │");
    assert_eq!(lines[4], "│ Germany │ Berlin  │");
    assert_eq!(lines[5], "└─────────┴─────────┘");
}

#[test]
fn headers_render_verbatim_in_call_order() {
    let repr = "{\"a\": \"1\"}";
    let got = format_table(repr, &headers(&["Second To None", "First"]), "bright_blue");
    let second = got.find("Second To None").expect("first header missing");
    let first = got.find("First").expect("second header missing");
    assert!(second < first);
}

#[test]
fn missing_headers_derive_from_the_shape() {
    let repr = "{\"k1\": \"v1\"}";
    let got = format_table(repr, &headers(&[]), "bright_blue");
    assert!(got.contains("Key"));
    assert!(got.contains("Value"));
    let seq_repr = "[\"x\", \"y\"]";
    let got2 = format_table(seq_repr, &headers(&[]), "bright_blue");
    assert!(got2.contains("Value"));
    assert!(!got2.contains("Key"));
}

#[test]
fn flat_sequence_renders_one_column() {
    let got = format_table("[\"ab\", \"cdef\"]", &headers(&[]), "bright_blue");
    let lines: Vec<&str> = got.lines().collect();
    assert_eq!(lines.len(), 6);
    assert_eq!(lines[0], "┌───────┐");
    assert_eq!(lines[3], "│ ab    │");
    assert_eq!(lines[4], "│ cdef  │");
    assert_eq!(lines[5], "└───────┘");
}

#[test]
fn quotes_are_stripped_from_keys_and_scalar_values() {
    let got = format_table("{\"k\": \"v\"}", &headers(&[]), "bright_blue");
    assert!(!got.contains('"'));
    assert!(got.contains("k"));
    assert!(got.contains("v"));
}

#[test]
fn nested_map_renders_colored_sections() {
    let repr = "{\"EU\": {\"France\": \"Paris\"}, \"Asia\": {\"Japan\": \"Tokyo\"}}";
    let got = format_table(repr, &headers(&[]), "bright_blue");
    assert!(got.starts_with(&format!("{}EU{}\n", BLUE_BOLD_ITALIC, RESET)));
    assert!(got.contains(&format!("{}Asia{}\n", BLUE_BOLD_ITALIC, RESET)));
    assert!(got.contains("France"));
    assert!(got.contains("Tokyo"));
}

#[test]
fn second_nesting_level_uses_bright_cyan() {
    let repr = "{\"World\": {\"EU\": {\"France\": \"Paris\"}}}";
    let got = format_table(repr, &headers(&[]), "bright_blue");
    assert!(got.starts_with(&format!("{}World{}\n", BLUE_BOLD_ITALIC, RESET)));
    assert!(got.contains(&format!("\x1B[96;1;3mEU{}\n", RESET)));
}

#[test]
fn commas_inside_quoted_values_do_not_split_entries() {
    let repr = "{\"k\": \"a, b\"}";
    let got = format_table(repr, &headers(&[]), "bright_blue");
    assert!(got.contains("a, b"));
    let lines: Vec<&str> = got.lines().collect();
    assert_eq!(lines.len(), 5);
}

#[test]
fn unsuitable_text_is_returned_unchanged() {
    assert_eq!(format_table("just text", &headers(&[]), "bright_blue"), "just text");
    assert_eq!(format_table("{}", &headers(&[]), "bright_blue"), "{}");
    assert_eq!(format_table("{broken}", &headers(&[]), "bright_blue"), "{broken}");
}
