use mat::viewer::{Key, KeyInput, MouseAction, Viewer, ViewerEvent};
use mat::terminal::strip_ansi;

fn key(c: char) -> ViewerEvent {
    ViewerEvent::Key(KeyInput { code: Key::Char(c), ctrl: false, no_modifiers: true })
}

fn code(k: Key) -> ViewerEvent {
    ViewerEvent::Key(KeyInput { code: k, ctrl: false, no_modifiers: true })
}

fn doc(n: usize) -> String {
    (1..=n).map(|i| format!("Paragraph number {i}\n\n")).collect()
}

fn status(v: &Viewer) -> String {
    let f = v.frame();
    let last = f.rsplit("\r\n").next().unwrap().to_string();
    strip_ansi(&last)
}

#[test]
fn scrolling_stays_in_range() {
    let mut v = Viewer::new(&doc(50), None, "", None, 80, 10);
    for _ in 0..200 {
        assert!(!v.handle_event(key('j')));
    }
    let bottom = status(&v);
    assert!(bottom.contains("Bot"), "{bottom}");
    v.handle_event(key('g'));
    v.handle_event(key('g'));
    assert!(status(&v).contains("Top"));
    v.handle_event(ViewerEvent::Mouse(MouseAction::ScrollDown));
    assert!(status(&v).contains("[Line 4/"));
    v.handle_event(ViewerEvent::Mouse(MouseAction::ScrollUp));
    assert!(status(&v).contains("[Line 1/"));
}

#[test]
fn counts_and_line_jumps() {
    let mut v = Viewer::new(&doc(50), None, "", None, 80, 10);
    v.handle_event(key('5'));
    v.handle_event(key('G'));
    assert!(status(&v).contains("[Line 5/"));
    v.handle_event(key('3'));
    v.handle_event(key('j'));
    assert!(status(&v).contains("[Line 8/"));
    v.handle_event(key('0'));
    assert!(status(&v).contains("[Line 1/"));
}

#[test]
fn quit_keys() {
    let mut v = Viewer::new("hi", None, "", None, 80, 10);
    assert!(v.handle_event(key('q')));
    let mut v = Viewer::new("hi", None, "", None, 80, 10);
    assert!(!v.handle_event(key('Z')));
    assert!(v.handle_event(key('Z')));
    let mut v = Viewer::new("hi", None, "", None, 80, 10);
    v.handle_event(key(':'));
    v.handle_event(key('q'));
    assert!(v.handle_event(code(Key::Enter)));
}

#[test]
fn search_finds_and_reports() {
    let mut v = Viewer::new(&doc(30), Some("notes.md"), "notes.md", None, 80, 10);
    v.handle_event(key('/'));
    for c in "NUMBER 2".chars() {
        v.handle_event(key(c));
    }
    v.handle_event(code(Key::Enter));
    let s = status(&v);
    assert!(s.contains("Match at line"), "{s}");
    v.handle_event(key('n'));
    assert!(status(&v).contains("Match at line"));
    v.handle_event(code(Key::Esc));
    v.handle_event(key('n'));
    assert!(status(&v).contains("Pattern not found"));
}

#[test]
fn unknown_command_is_reported() {
    let mut v = Viewer::new("hi", None, "", None, 80, 10);
    v.handle_event(key(':'));
    v.handle_event(key('x'));
    assert!(strip_ansi(&v.frame()).contains(":x"));
    v.handle_event(code(Key::Enter));
    assert!(status(&v).contains("Unknown command: :x"));
}

#[test]
fn statusline_names_the_file() {
    let v = Viewer::new("hi", Some("a.md"), "a.md", None, 80, 10);
    let s = status(&v);
    assert!(s.contains("[NORMAL]"));
    assert!(s.contains(" a.md "));
    assert!(s.contains("Top"));
    let v = Viewer::new("hi", None, "", None, 80, 10);
    assert!(status(&v).contains(" stdin "));
}

#[test]
fn resize_keeps_offset_valid() {
    let mut v = Viewer::new(&doc(40), None, "", None, 80, 10);
    v.handle_event(key('G'));
    v.handle_event(ViewerEvent::Resize(120, 60));
    assert!(status(&v).contains("Top") || status(&v).contains("Bot"));
}

#[test]
fn help_screen_opens_and_closes() {
    let mut v = Viewer::new("hi", None, "", None, 100, 40);
    v.handle_event(code(Key::F(1)));
    assert!(v.frame().contains("mat Help"));
    v.handle_event(key('x'));
    assert!(!v.frame().contains("mat Help"));
}

#[test]
fn accepts_refuses_count_overflow() {
    let mut v = Viewer::new("hi", None, "", None, 80, 10);
    for _ in 0..19 {
        assert!(v.accepts(key('9')));
        v.handle_event(key('9'));
    }
    assert!(!v.accepts(key('9')));
}

#[test]
fn viewport_never_runs_past_the_document() {
    let mut v = Viewer::new(&doc(60), None, "", None, 80, 12);
    let keys = ['j', 'G', 'k', 'd', 'f', 'b', 'u', 'g', 'g', '9', 'G', 'n', ' ', 'N'];
    let mut seed: usize = 7;
    for step in 0..400 {
        seed = (seed * 1103515245 + 12345) % 2147483648;
        let ev = match seed % 7 {
            0 => ViewerEvent::Mouse(MouseAction::ScrollDown),
            1 => ViewerEvent::Mouse(MouseAction::ScrollUp),
            2 if step % 50 == 0 => ViewerEvent::Resize(60 + (seed % 60) as u16, 8 + (seed % 10) as u16),
            _ => key(keys[seed % keys.len()]),
        };
        assert!(v.accepts(ev));
        v.handle_event(ev);
        assert!(!v.frame().contains("\x1b[2m~"), "step {step}");
    }
}

#[test]
fn search_counts_every_matching_line() {
    let mut v = Viewer::new(&doc(30), Some("notes.md"), "notes.md", None, 80, 10);
    v.handle_event(key('/'));
    for c in "number 2".chars() {
        v.handle_event(key(c));
    }
    v.handle_event(code(Key::Enter));
    let s = status(&v);
    assert!(s.contains("/11] Match at line"), "{s}");
}

#[test]
fn cursor_shows_only_while_typing() {
    let mut v = Viewer::new("hi", None, "", None, 80, 10);
    assert!(v.frame().ends_with("\x1b[?25l"));
    v.handle_event(key(':'));
    v.handle_event(key('q'));
    assert!(v.frame().ends_with("\x1b[10;3H\x1b[?25h"));
}

#[test]
fn status_labels_for_each_mode() {
    let mut v = Viewer::new("hi", None, "", None, 80, 10);
    assert!(status(&v).contains("[NORMAL]"));
    v.handle_event(key(':'));
    assert!(status(&v).contains("[COMMAND]"));
    assert!(status(&v).starts_with(':'));
    v.handle_event(code(Key::Esc));
    v.handle_event(key('?'));
    assert!(status(&v).contains("[SEARCH]"));
    assert!(status(&v).starts_with('?'));
}

#[test]
fn plain_d_and_u_scroll_half_pages() {
    let mut v = Viewer::new(&doc(50), None, "", None, 80, 11);
    v.handle_event(key('d'));
    assert!(status(&v).contains("[Line 6/"), "{}", status(&v));
    v.handle_event(key('u'));
    assert!(status(&v).contains("[Line 1/"));
}

#[test]
fn n_moves_on_past_an_on_screen_match() {
    let mut v = Viewer::new(&doc(10), None, "", None, 80, 4);
    v.handle_event(key('/'));
    for c in "number 1".chars() {
        v.handle_event(key(c));
    }
    v.handle_event(code(Key::Enter));
    assert!(status(&v).contains("[2/2] Match at line 19"), "{}", status(&v));
    v.handle_event(key('n'));
    assert!(status(&v).contains("[1/2] Match at line 1"), "{}", status(&v));
    v.handle_event(key('n'));
    assert!(status(&v).contains("[2/2] Match at line 19"), "{}", status(&v));
    v.handle_event(key('N'));
    assert!(status(&v).contains("[1/2] Match at line 1"), "{}", status(&v));
}

#[test]
fn n_takes_the_first_match_below_the_top_line() {
    let content: String = (1..=15)
        .map(|k| if k == 3 || k == 6 || k == 11 { format!("Paragraph {k} mark\n\n") } else { format!("Paragraph {k}\n\n") })
        .collect();
    let mut v = Viewer::new(&content, None, "", None, 80, 20);
    v.handle_event(key('/'));
    for c in "mark".chars() {
        v.handle_event(key(c));
    }
    v.handle_event(code(Key::Enter));
    assert!(status(&v).contains("[1/3] Match at line 5"), "{}", status(&v));
    v.handle_event(key('n'));
    assert!(status(&v).contains("[2/3] Match at line 11"), "{}", status(&v));
    for _ in 0..7 {
        v.handle_event(key('k'));
    }
    v.handle_event(key('n'));
    assert!(status(&v).contains("[1/3] Match at line 5"), "{}", status(&v));
}

#[test]
fn normal_status_line_fills_the_width() {
    let v = Viewer::new(&doc(5), Some("a.md"), "a.md", None, 40, 5);
    let line = status(&v);
    assert_eq!(line.chars().count(), 40, "{line}");
    assert!(line.starts_with("[NORMAL] a.md "), "{line}");
}
