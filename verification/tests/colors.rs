use rust_lessons::rgrep::{format_line, report, Pattern};

#[test]
fn format_line_paints_when_colors_are_on() {
    colored::control::set_override(true);
    let result = format_line("αβ key", 3, 5..8);
    assert_eq!(
        result,
        "\x1b[34m     3\x1b[0m:\x1b[36m4  \x1b[0m αβ \x1b[31mkey\x1b[0m"
    );
}

#[test]
fn report_leaves_the_file_name_plain_when_colors_are_on() {
    colored::control::set_override(true);
    let pattern = Pattern::new("b").unwrap();
    let lines = vec![Some("abc".to_string())];
    let shown = report("f.txt", &lines, &pattern).unwrap();
    assert!(shown.starts_with("f.txt\n"));
    assert!(shown.ends_with("\x1b[31mb\x1b[0mc\n"));
}

#[test]
fn format_line_restyles_after_an_inner_reset() {
    colored::control::set_override(true);
    let result = format_line("x a\x1b[0mb", 1, 2..8);
    assert_eq!(
        result,
        "\x1b[34m     1\x1b[0m:\x1b[36m3  \x1b[0m x \x1b[31ma\x1b[0m\x1b[31mb\x1b[0m"
    );
}
