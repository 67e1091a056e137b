use mat::render::{format_inline_task_markers, AlertKind, HeadingLevel, MarkdownRenderer, MdEvent};
use mat::syntax::{highlight_code, highlighted_lines, SyntaxState};
use mat::terminal::strip_ansi;

#[test]
fn test_render_alert_and_tasks() {
    let md = "# Heading 1\n\n> [!NOTE]\n> This is a note.\n\n- **Status:** [ ] Pending\n- [x] Done";
    let renderer = MarkdownRenderer::new(80);
    let output = renderer.render(md);
    assert!(output.contains("NOTE"));
    assert!(output.contains("☐"));
    assert!(output.contains("✔"));
}

#[test]
fn test_highlight_code() {
    let state = SyntaxState::new();
    let code = "fn main() {\n    let x = 42;\n}";
    let lines = highlight_code(&state, code, "rs");
    assert_eq!(lines.len(), 3);
    assert!(lines[0].contains("fn"));
    assert!(lines[0].contains('\x1b'));
}

#[test]
fn task_markers_become_glyphs() {
    assert_eq!(
        format_inline_task_markers("[ ] a [x] b [X] c"),
        "\x1b[38;2;130;130;130m☐\x1b[0m a \x1b[1;32m✔\x1b[0m b \x1b[1;32m✔\x1b[0m c"
    );
    assert_eq!(format_inline_task_markers("[x]"), "[x]");
}

#[test]
fn headings_by_level() {
    let out = MarkdownRenderer::new(80).render_events(vec![
        MdEvent::StartHeading,
        MdEvent::Text("Title".to_string()),
        MdEvent::EndHeading(HeadingLevel::H2),
    ]);
    assert_eq!(out, "  \x1b[1;95m▌ Title\x1b[0m");
}

#[test]
fn paragraph_is_indented_and_wrapped() {
    let out = MarkdownRenderer::new(40).render("word ".repeat(20).as_str());
    for line in out.lines() {
        assert!(line.starts_with("  "));
        assert!(strip_ansi(line).chars().count() <= 36);
    }
    assert!(out.lines().count() > 1);
}

#[test]
fn ordered_lists_count_up() {
    let out = MarkdownRenderer::new(80).render("3. a\n4. b\n");
    let plain = strip_ansi(&out);
    assert!(plain.contains("3. a"));
    assert!(plain.contains("4. b"));
}

#[test]
fn code_blocks_have_gutter_and_badge() {
    let out = MarkdownRenderer::new(80).render("```rust\nlet a = 1;\n```\n");
    let plain = strip_ansi(&out);
    assert!(plain.contains("rust"));
    assert!(plain.contains(" 1 │"));
    assert!(plain.contains('┬') && plain.contains('┴'));
}

#[test]
fn alerts_draw_panels() {
    let out = MarkdownRenderer::new(60).render_events(vec![
        MdEvent::StartBlockQuote(Some(AlertKind::Warning)),
        MdEvent::StartParagraph,
        MdEvent::Text("careful".to_string()),
        MdEvent::EndParagraph,
        MdEvent::EndBlockQuote,
    ]);
    let plain = strip_ansi(&out);
    assert!(plain.contains("╭─ ⚠️ WARNING"));
    assert!(plain.contains("│  careful"));
    assert!(plain.contains('╰'));
}

#[test]
fn tables_render_through_events() {
    let out = MarkdownRenderer::new(80).render("| a | b |\n|---|:-:|\n| 1 | 2 |\n");
    let plain = strip_ansi(&out);
    assert!(plain.contains("┌"));
    assert!(plain.contains("│ a "));
    assert!(plain.contains("└"));
}

#[test]
fn links_are_osc8() {
    let out = MarkdownRenderer::new(80).render("[x](https://a.b)");
    assert!(out.contains("\x1b]8;;https://a.b\x1b\\"));
    assert_eq!(strip_ansi(&out).trim(), "x");
}

#[test]
fn rules_span_the_column() {
    let out = MarkdownRenderer::new(44).render("---");
    assert_eq!(strip_ansi(&out).trim(), "─".repeat(40));
}

#[test]
fn highlighted_lines_from_given_escapes() {
    let esc = vec![(0usize, String::new()), (2usize, "\x1b[1mx\n".to_string())];
    assert_eq!(highlighted_lines("a\r\nb", &esc), vec!["a".to_string(), "\x1b[1mx\x1b[0m".to_string()]);
}
