use mat::table::{format_cell, Align, TableData};
use mat::terminal::visible_width;

fn table(al: Vec<Align>, headers: &[&str], rows: &[&[&str]]) -> TableData {
    let mut t = TableData::new(al);
    t.headers = headers.iter().map(|s| s.to_string()).collect();
    t.rows = rows.iter().map(|r| r.iter().map(|s| s.to_string()).collect()).collect();
    t
}

#[test]
fn empty_table_renders_nothing() {
    let t = table(vec![], &[], &[]);
    assert!(t.render(80).is_empty());
}

#[test]
fn table_lines_have_equal_width() {
    let t = table(
        vec![Align::Left, Align::Center, Align::Right],
        &["Name", "Qty", "Price"],
        &[&["apple", "3", "1.20"], &["kiwi", "12", "0.5"]],
    );
    let lines = t.render(80);
    assert_eq!(lines.len(), 6);
    let w = visible_width(&lines[0]);
    assert_eq!(w, 1 + (5 + 3) + (3 + 3) + (5 + 3));
    for l in &lines {
        assert_eq!(visible_width(l), w);
    }
    assert!(lines[0].contains('┌') && lines[0].contains('┬') && lines[0].contains('┐'));
    assert!(lines[2].contains('├') && lines[5].contains('└'));
}

#[test]
fn table_without_header_has_no_divider() {
    let t = table(vec![Align::Unspecified], &[], &[&["x"]]);
    let lines = t.render(80);
    assert_eq!(lines.len(), 3);
    assert!(!lines.iter().any(|l| l.contains('├')));
}

#[test]
fn wide_tables_are_scaled() {
    let long = "x".repeat(60);
    let t = table(vec![Align::Left, Align::Left], &[&long, &long], &[]);
    let lines = t.render(50);
    // 2 columns: overhead 7, available 43, total 120 -> each 60 * 43 / 120 = 21
    assert_eq!(visible_width(&lines[0]), 1 + (21 + 3) * 2);
}

#[test]
fn format_cell_alignments() {
    assert_eq!(format_cell("ab", 5, Align::Right, ""), "    ab\x1b[0m ");
    assert_eq!(format_cell("ab", 5, Align::Center, ""), "  ab  \x1b[0m ");
    assert_eq!(format_cell("ab", 5, Align::Left, ""), " ab   \x1b[0m ");
    assert_eq!(format_cell("abcdef", 3, Align::Right, "B"), " Babc\x1b[0m ");
    assert_eq!(format_cell("ab中", 3, Align::Left, ""), " ab \x1b[0m ");
    assert_eq!(format_cell("\x1b[1mabcdef\x1b[0m", 4, Align::Left, ""), " \x1b[1mabcd\x1b[0m\x1b[0m ");
}

#[test]
fn fits_reports_small_tables() {
    let t = table(vec![Align::Left], &["a"], &[&["b"]]);
    assert!(t.fits());
}

#[test]
fn narrowed_columns_cut_their_cells() {
    let t = table(vec![Align::Unspecified, Align::Unspecified], &[], &[&["aaaaaaaaaa", "bbbbbbbbbb"]]);
    let lines = t.render(17);
    assert_eq!(lines.len(), 3);
    for l in &lines {
        assert_eq!(visible_width(l), 17);
    }
    let long = "x".repeat(60);
    let t = table(vec![Align::Left, Align::Left], &[&long, &long], &[&["a", "b"]]);
    let lines = t.render(50);
    let w = visible_width(&lines[0]);
    for l in &lines {
        assert_eq!(visible_width(l), w);
    }
}
