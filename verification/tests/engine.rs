//! The style engine and string escaping.
use cio::colorstyle::{ansi_code_for_style, escape_string, is_known_term};

fn s(v: &[&str]) -> Vec<String> {
    v.iter().map(|x| x.to_string()).collect()
}

#[test]
fn empty_style_list_gives_reset() {
    assert_eq!(ansi_code_for_style(&s(&[])), "\x1B[0m");
}

#[test]
fn unknown_term_gives_reset() {
    assert_eq!(ansi_code_for_style(&s(&["unknownterm"])), "\x1B[0m");
}

#[test]
fn red_bold_gives_31_1() {
    assert_eq!(ansi_code_for_style(&s(&["red", "bold"])), "\x1B[31;1m");
}

#[test]
fn order_is_preserved() {
    assert_eq!(ansi_code_for_style(&s(&["bold", "red"])), "\x1B[1;31m");
    assert_eq!(ansi_code_for_style(&s(&["red", "bold"])), "\x1B[31;1m");
}

#[test]
fn unknown_terms_are_dropped_known_kept() {
    assert_eq!(ansi_code_for_style(&s(&["nope", "green", "bogus"])), "\x1B[32m");
}

#[test]
fn gray_is_bright_black() {
    assert_eq!(ansi_code_for_style(&s(&["gray"])), "\x1B[90m");
    assert_eq!(ansi_code_for_style(&s(&["bright_black"])), "\x1B[90m");
}

#[test]
fn every_color_code_matches_the_table() {
    let pairs = [
        ("black", "30"),
        ("red", "31"),
        ("green", "32"),
        ("yellow", "33"),
        ("blue", "34"),
        ("magenta", "35"),
        ("cyan", "36"),
        ("white", "37"),
        ("bright_black", "90"),
        ("bright_red", "91"),
        ("bright_green", "92"),
        ("bright_yellow", "93"),
        ("bright_blue", "94"),
        ("bright_magenta", "95"),
        ("bright_cyan", "96"),
        ("bright_white", "97"),
        ("bold", "1"),
        ("italic", "3"),
        ("underline", "4"),
        ("dimmed", "2"),
        ("blink", "5"),
        ("reversed", "7"),
        ("hidden", "8"),
        ("strikethrough", "9"),
    ];
    for (name, code) in pairs {
        assert_eq!(ansi_code_for_style(&s(&[name])), format!("\x1B[{}m", code));
    }
}

#[test]
fn known_term_trims_before_lookup() {
    assert!(is_known_term("  red "));
    assert!(is_known_term("strikethrough"));
    assert!(!is_known_term("scarlet"));
    assert!(!is_known_term(""));
}

#[test]
fn escape_backslash_quote_newline() {
    assert_eq!(escape_string("a\\b\"c\nd"), "a\\\\b\\\"c\\nd");
    assert_eq!(escape_string("plain"), "plain");
    assert_eq!(escape_string(""), "");
}
