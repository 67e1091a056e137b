use mat::terminal::{
    collapse_blank_lines, compute_smart_indent, strip_ansi, trim_trailing_ansi_spaces, visible_width,
    visible_width_wide, wrap_ansi,
};

#[test]
fn test_visible_width() {
    assert_eq!(visible_width("hello"), 5);
    assert_eq!(visible_width("\x1b[1;31mhello\x1b[0m"), 5);
    assert_eq!(visible_width("\x1b]8;;https://example.com\x1b\\Click\x1b]8;;\x1b\\"), 5);
}

#[test]
fn test_strip_ansi() {
    assert_eq!(strip_ansi("\x1b[1;31mhello\x1b[0m world"), "hello world");
    assert_eq!(strip_ansi("\x1b]8;;https://example.com\x1b\\link\x1b]8;;\x1b\\"), "link");
}

#[test]
fn test_wrap_ansi() {
    let text = "The quick brown fox jumps over the lazy dog";
    let wrapped = wrap_ansi(text, 20, "", "");
    assert_eq!(wrapped.len(), 3);
    assert_eq!(wrapped[0], "The quick brown fox");
    assert_eq!(wrapped[1], "jumps over the lazy");
    assert_eq!(wrapped[2], "dog");
}

#[test]
fn test_wrap_with_ansi_links() {
    let text = "Check out \x1b]8;;https://rust-lang.org\x1b\\Rust Language Website\x1b]8;;\x1b\\ for details.";
    let wrapped = wrap_ansi(text, 35, "", "");
    assert_eq!(wrapped.len(), 2);
    assert!(wrapped[0].contains("Rust Language"));
}

#[test]
fn visible_width_counts_wide_characters() {
    assert_eq!(visible_width("中文"), 4);
    assert_eq!(visible_width("a\tb"), 2);
    assert_eq!(visible_width(""), 0);
}

#[test]
fn strip_ansi_is_idempotent_on_examples() {
    let samples = ["\x1b[1mbold\x1b[0m", "plain", "\x1b]8;;u\x07x\x1b]8;;\x07", "\x1bZtail", "\x1b[unterminated"];
    for s in samples {
        let once = strip_ansi(s);
        assert_eq!(strip_ansi(&once), once);
        assert_eq!(visible_width(&once), visible_width(s));
    }
}

#[test]
fn strip_ansi_edge_escapes() {
    assert_eq!(strip_ansi("a\x1b"), "a");
    assert_eq!(strip_ansi("a\x1bXb"), "ab");
    assert_eq!(strip_ansi("\x1b[31"), "");
    assert_eq!(strip_ansi("\x1b]title\x1b\\after"), "after");
    assert_eq!(strip_ansi("\x1b]a\x1bb\x07c"), "c");
}

#[test]
fn wrap_ansi_uses_indents() {
    let wrapped = wrap_ansi("aaa bbb ccc", 9, "> ", "  ");
    assert_eq!(wrapped, vec!["> aaa bbb".to_string(), "  ccc".to_string()]);
}

#[test]
fn wrap_ansi_keeps_long_words_whole() {
    let wrapped = wrap_ansi("abcdefghij xy", 4, "", "");
    assert_eq!(wrapped, vec!["abcdefghij".to_string(), "xy".to_string()]);
}

#[test]
fn wrap_ansi_without_words_gives_first_indent() {
    assert_eq!(wrap_ansi("", 10, "", ""), vec!["".to_string()]);
    assert_eq!(wrap_ansi("   ", 10, "* ", "  "), vec!["*".to_string()]);
}

#[test]
fn wrap_ansi_lines_fit_width() {
    let text = "one two three four five six seven eight nine ten eleven twelve";
    for width in 5..30 {
        for line in wrap_ansi(text, width, "", "") {
            assert!(visible_width(&line) <= width || !line.contains(' '));
        }
    }
}

#[test]
fn trim_trailing_keeps_escapes_before_blanks() {
    assert_eq!(trim_trailing_ansi_spaces("ab \t "), "ab");
    assert_eq!(trim_trailing_ansi_spaces("ab\x1b[0m  "), "ab\x1b[0m");
    assert_eq!(trim_trailing_ansi_spaces("   "), "");
}

#[test]
fn collapse_blank_lines_merges_runs() {
    let lines: Vec<String> = ["", "a", "", "  ", "b", "", ""].iter().map(|s| s.to_string()).collect();
    assert_eq!(collapse_blank_lines(lines), vec!["a".to_string(), "".to_string(), "b".to_string()]);
}

#[test]
fn smart_indent_follows_bullets() {
    let (first, rest) = compute_smart_indent("  - item");
    assert_eq!(first, "");
    assert_eq!(rest, "    ");
    let (_, rest) = compute_smart_indent("plain");
    assert_eq!(rest, "");
}

#[test]
fn wrap_trims_blanks_before_trailing_escapes() {
    let wrapped = wrap_ansi("abcd \x1b[0mxyz", 4, "", "");
    assert_eq!(wrapped, vec!["abcd\x1b[0m".to_string(), "xyz".to_string()]);
    assert_eq!(visible_width(&wrapped[0]), 4);
}

#[test]
fn wrap_closes_and_reopens_styles() {
    let wrapped = wrap_ansi("\x1b[1maaa bbb\x1b[0m", 5, "", "");
    assert_eq!(wrapped, vec!["\x1b[1maaa\x1b[0m".to_string(), "\x1b[1mbbb\x1b[0m".to_string()]);
    assert_eq!(strip_ansi(&wrapped[0]), "aaa");
    assert_eq!(strip_ansi(&wrapped[1]), "bbb");
    let wrapped = wrap_ansi("\x1b[3mone \x1b[1mtwo\x1b[0m three", 6, "", "> ");
    assert_eq!(
        wrapped,
        vec![
            "\x1b[3mone\x1b[1m\x1b[0m".to_string(),
            "> \x1b[3m\x1b[1mtwo\x1b[0m".to_string(),
            "> three".to_string()
        ]
    );
}

#[test]
fn trim_keeps_trailing_escapes_after_blanks() {
    assert_eq!(trim_trailing_ansi_spaces("ab  \x1b[0m"), "ab\x1b[0m");
    assert_eq!(trim_trailing_ansi_spaces("a \x1b[1m b\t\x1b[0m \x1b]8;;\x1b\\ "), "a \x1b[1m b\x1b[0m\x1b]8;;\x1b\\");
}

#[test]
fn collapse_is_idempotent_and_keeps_content() {
    let lines: Vec<String> = ["  ", "x", "", "", "\t", "y", "z", " ", ""].iter().map(|s| s.to_string()).collect();
    let once = collapse_blank_lines(lines);
    let expected: Vec<String> = ["x", "", "y", "z"].iter().map(|s| s.to_string()).collect();
    assert_eq!(once, expected);
    assert_eq!(collapse_blank_lines(once.clone()), once);
}

#[test]
fn wide_width_needs_no_bound() {
    assert_eq!(visible_width_wide("\x1b[1mhello\x1b[0m"), 5);
    assert_eq!(visible_width_wide("中文╭╮"), 6);
}
