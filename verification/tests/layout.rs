use mat::layout::{
    apply_centering, compute_layout, format_bat_footer, format_bat_header, frame_document, resolve_term_width, Layout,
};
use mat::text::parse_usize;

#[test]
fn default_layout_caps_and_centers() {
    let l = compute_layout(None, 120, true);
    assert_eq!(l.content_width, 100);
    assert_eq!(l.left_pad, 10);
    let l = compute_layout(None, 30, true);
    assert_eq!(l.content_width, 40);
    assert_eq!(l.left_pad, 0);
    let l = compute_layout(None, 120, false);
    assert_eq!(l.left_pad, 0);
}

#[test]
fn custom_width_layouts() {
    let l = compute_layout(Some(0), 150, true);
    assert_eq!((l.content_width, l.left_pad), (150, 0));
    let l = compute_layout(Some(60), 100, true);
    assert_eq!((l.content_width, l.left_pad), (60, 20));
    let l = compute_layout(Some(10), 100, true);
    assert_eq!(l.content_width, 20);
    let l = compute_layout(Some(500), 80, true);
    assert_eq!((l.content_width, l.left_pad), (80, 0));
}

#[test]
fn term_width_resolution_order() {
    assert_eq!(resolve_term_width(Some(33), Some(90), Some("70")), 33);
    assert_eq!(resolve_term_width(None, Some(90), Some("70")), 90);
    assert_eq!(resolve_term_width(None, Some(0), Some("70")), 70);
    assert_eq!(resolve_term_width(None, None, Some("abc")), 80);
    assert_eq!(resolve_term_width(None, None, Some("0")), 80);
    assert_eq!(resolve_term_width(None, None, None), 80);
}

#[test]
fn parse_usize_matches_std() {
    for s in ["0", "42", "+7", "", "+", "-1", "1a", " 3", "18446744073709551615", "18446744073709551616", "007"] {
        assert_eq!(parse_usize(s), s.parse::<usize>().ok(), "{s}");
    }
}

#[test]
fn centering_pads_non_empty_lines() {
    assert_eq!(apply_centering("a\n\nb", 2), "  a\n\n  b");
    assert_eq!(apply_centering("a\n\nb", 0), "a\n\nb");
    assert_eq!(apply_centering("", 3), "");
    assert_eq!(apply_centering("x\n", 1), " x\n");
}

#[test]
fn footer_and_header_frames() {
    assert_eq!(format_bat_footer(8), "\n\n  \x1b[38;2;90;90;125m────\x1b[0m\n");
    assert_eq!(format_bat_footer(3), "\n\n  \x1b[38;2;90;90;125m\x1b[0m\n");
    let h = format_bat_header("README.md", 6);
    assert_eq!(
        h,
        "  \x1b[38;2;90;90;125m──\x1b[0m\n  \x1b[38;2;130;130;160mFile: \x1b[1;38;2;84;160;255mREADME.md\x1b[0m\n  \x1b[38;2;90;90;125m──\x1b[0m\n\n"
    );
}

#[test]
fn layout_column_and_margins_over_widths() {
    for term in 0..260usize {
        for custom in [None, Some(0), Some(1), Some(30), Some(100), Some(500)] {
            let l = compute_layout(custom, term, true);
            assert!(l.content_width >= 20);
            if custom.is_none() {
                assert!((40..=100).contains(&l.content_width));
            }
            assert!(l.content_width + 2 * l.left_pad <= term.max(l.content_width));
        }
    }
}

#[test]
fn framed_document_adds_header_footer_and_margin() {
    let l = Layout { content_width: 8, left_pad: 1 };
    let out = frame_document("body", Some("x.md"), &l);
    assert_eq!(out, apply_centering(&(format_bat_header("x.md", 8) + "body" + &format_bat_footer(8)), 1));
    assert_eq!(frame_document("a\nb", None, &l), " a\n b");
}
