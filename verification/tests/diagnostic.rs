use sudo_rs::diagnostic::{cited_header, cited_underline};
use sudo_rs::sudoers::basic_parser::Span;

#[test]
fn cited_header_names_file_line_and_column() {
    let span = Span { start: (3, 5), end: (3, 9) };
    assert_eq!(cited_header("/etc/sudoers", &span, "syntax error"), "/etc/sudoers:3:5: syntax error");
    let span = Span { start: (120, 17), end: (121, 1) };
    assert_eq!(cited_header("f", &span, "x"), "f:120:17: x");
}

#[test]
fn cited_underline_marks_the_span() {
    let span = Span { start: (3, 5), end: (3, 9) };
    assert_eq!(cited_underline("root ALL=(ALL) ALL", &span), "    ^~~~");
}

#[test]
fn cited_underline_keeps_whitespace_and_single_mark() {
    // a tab before the column stays a tab, so that the mark lines up
    let span = Span { start: (1, 3), end: (1, 3) };
    assert_eq!(cited_underline("\tab cd", &span), "\t ^");
    // a span over several lines is marked at its start only
    let span = Span { start: (1, 2), end: (2, 8) };
    assert_eq!(cited_underline("xyz", &span), " ^");
    // a column past the end of the line
    let span = Span { start: (1, 6), end: (1, 7) };
    assert_eq!(cited_underline("ab", &span), "  ^");
}
