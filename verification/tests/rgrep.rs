use colored::Colorize;
use rust_lessons::rgrep::{decimal, format_line, layout_line, report, GrepConfig, GrepError, Pattern};

#[test]
fn format_line_should_work() {
    let result = format_line("Hello, Air~", 1000, 7..10);
    let expected = format!("{0: >6}:{1: <3} Hello, {2}~", "1000".blue(), "8".cyan(), "Air".red());
    assert_eq!(result, expected);
}

#[test]
fn default_strategy_should_work() {
    let lines = vec![Some("hello world!".to_string()), Some("hey Air!".to_string())];
    let pattern = Pattern::new(r"he\w+").unwrap();
    let result = report("src/main.rs", &lines, &pattern).unwrap();
    let expected = [
        String::from("src/main.rs"),
        format_line("hello world!", 1, 0..5),
        format_line("hey Air!\n", 2, 0..3),
    ];
    assert_eq!(result, expected.join("\n"));
}

#[test]
fn format_line_pads_number_and_counts_columns_in_characters() {
    let result = format_line("αβ key", 3, 5..8);
    let expected = format!("{0: >6}:{1: <3} αβ {2}", "3".blue(), "4".cyan(), "key".red());
    assert_eq!(result, expected);
}

#[test]
fn report_is_empty_without_match_and_skips_unreadable_lines() {
    let pattern = Pattern::new("Air").unwrap();
    let lines = vec![Some("nothing".to_string())];
    assert_eq!(report("f", &lines, &pattern), None);
    let lines = vec![None, Some("Air".to_string()), Some("x".to_string())];
    let shown = report("f", &lines, &pattern).unwrap();
    assert_eq!(shown, format!("f\n{}\n", format_line("Air", 2, 0..3)));
}

#[test]
fn invalid_pattern_is_an_error() {
    assert!(matches!(Pattern::new("foo("), Err(GrepError::Regex(_))));
    let config = GrepConfig::new("(", "*.rs");
    assert!(matches!(config.compile(), Err(GrepError::Regex(_))));
    let config = GrepConfig::new("a+", "*.rs");
    assert_eq!(config.pattern(), "a+");
    assert_eq!(config.glob(), "*.rs");
    let p = config.compile().unwrap();
    assert_eq!(p.find("xaay"), Some((1, 3)));
    assert_eq!(p.find("xy"), None);
}

#[test]
fn decimal_writes_digits() {
    assert_eq!(decimal(0), "0");
    assert_eq!(decimal(7), "7");
    assert_eq!(decimal(1000), "1000");
    assert_eq!(decimal(usize::MAX), usize::MAX.to_string());
}

#[test]
fn layout_line_joins_pieces() {
    assert_eq!(layout_line("  12", "4  ", "ab", "cd", "ef"), "  12:4   abcdef");
}
