//! The interactive pager: scrolling, search, commands and the screen it draws.
//! The terminal loop itself (reading keys, writing frames) is the caller's;
//! this module decides what each event does and what each frame shows.

use vstd::prelude::*;
use crate::layout::{
    apply_centering, centered, compute_layout, content_width_spec, footer_spec, format_bat_footer,
    format_bat_header, header_spec, left_pad_spec, sat_sub,
};
use crate::parse::markdown_events;
use crate::render::{finish_spec, initial_state, run_spec, MarkdownRenderer};
use crate::terminal::{strip_chars, strip_seq};
use crate::text::{
    chars_of, decimal, decimal_exec, matches_at, parse_usize, parse_usize_spec, push_all,
    push_repeat, push_repeat_wide, push_str, repeat_char, split_lines, split_lines_exec, string_of,
    strings_view, trim_chars, trim_ws, utf8_len_exec, utf8_len_seq, vecs_view, all_digits,
};

verus! {

/// A key as the pager distinguishes keys.
#[derive(Clone, Copy, Debug, PartialEq, Eq, Structural)]
pub enum Key {
    Char(char),
    Down,
    Up,
    Enter,
    PageDown,
    PageUp,
    Home,
    End,
    Esc,
    Backspace,
    F(u8),
    Other,
}

/// A key press: the key, whether Control was held, and whether no
/// modifier at all was held.
#[derive(Clone, Copy, Debug, PartialEq, Eq, Structural)]
pub struct KeyInput {
    pub code: Key,
    pub ctrl: bool,
    pub no_modifiers: bool,
}

/// Mouse activity the pager reacts to.
#[derive(Clone, Copy, Debug, PartialEq, Eq, Structural)]
pub enum MouseAction {
    ScrollDown,
    ScrollUp,
    Other,
}

/// One terminal event.
#[derive(Clone, Copy, Debug, PartialEq, Eq, Structural)]
pub enum ViewerEvent {
    Key(KeyInput),
    Mouse(MouseAction),
    /// The terminal now has this many columns and rows.
    Resize(u16, u16),
    Other,
}

/// What the pager is reading keys for.
pub enum InputMode {
    Normal,
    Command { buffer: Vec<char> },
    Search { buffer: Vec<char>, reverse: bool },
    Help,
}

/// The input mode as values.
pub enum ModeView {
    Normal,
    Command(Seq<char>),
    Search(Seq<char>, bool),
    Help,
}

/// The pager's state as values.
#[verifier::ext_equal]
pub struct ViewState {
    pub content: Seq<char>,
    pub file_path: Option<Seq<char>>,
    pub display_name: Seq<char>,
    pub custom_width: Option<usize>,
    pub lines: Seq<Seq<char>>,
    pub scroll: nat,
    pub cols: nat,
    pub rows: nat,
    pub mode: ModeView,
    pub status: Option<Seq<char>>,
    pub pending_g: bool,
    pub pending_z: bool,
    pub prefix: nat,
    pub query: Option<Seq<char>>,
    pub matches: Seq<nat>,
    pub current: Option<nat>,
}

/// Rows available for text: all but the status line.
pub open spec fn viewport_height(v: ViewState) -> nat {
    sat_sub(v.rows, 1)
}

/// The largest scroll offset: the last screenful starts there.
pub open spec fn max_scroll(v: ViewState) -> nat {
    sat_sub(v.lines.len(), viewport_height(v))
}

pub open spec fn min_nat(a: nat, b: nat) -> nat {
    if a <= b { a } else { b }
}

pub open spec fn scroll_down_spec(v: ViewState, n: nat) -> ViewState {
    ViewState { scroll: min_nat(v.scroll + n, max_scroll(v)), ..v }
}

pub open spec fn scroll_up_spec(v: ViewState, n: nat) -> ViewState {
    ViewState { scroll: sat_sub(v.scroll, n), ..v }
}

pub open spec fn clamp_spec(v: ViewState) -> ViewState {
    if v.scroll > max_scroll(v) {
        ViewState { scroll: max_scroll(v), ..v }
    } else {
        v
    }
}

/// What `str::to_lowercase` gives for a text.
pub uninterp spec fn lowercase(s: Seq<char>) -> Seq<char>;

/// `str::to_lowercase`: the Unicode lowercase mapping of a text. Its
/// result is left to the name `lowercase`.
#[verifier::external_body]
fn to_lowercase(s: &str) -> (out: String)
    ensures
        out@ == lowercase(s@),
{
    s.to_lowercase()
}

/// The lowercase mapping of a character sequence.
fn lowercase_chars(s: &Vec<char>) -> (out: Vec<char>)
    ensures
        out@ == lowercase(s@),
{
    let t = string_of(s.as_slice());
    chars_of(to_lowercase(t.as_str()).as_str())
}

/// Whether `needle` occurs in `hay`.
pub open spec fn seq_contains(hay: Seq<char>, needle: Seq<char>) -> bool {
    exists|i: int| 0 <= i && i + needle.len() <= hay.len() && #[trigger] hay.subrange(i, i + needle.len()) == needle
}

/// Whether a screen line matches a search: its visible text, lowercased,
/// contains the lowercased query.
pub open spec fn line_matches(line: Seq<char>, q: Seq<char>) -> bool {
    seq_contains(lowercase(strip_seq(line)), lowercase(q))
}

/// Indices of the first `n` lines that match the query, in order.
pub open spec fn match_indices(lines: Seq<Seq<char>>, q: Seq<char>, n: nat) -> Seq<nat>
    decreases n,
{
    if n == 0 {
        Seq::empty()
    } else {
        let m = match_indices(lines, q, (n - 1) as nat);
        if line_matches(lines[n - 1], q) {
            m.push((n - 1) as nat)
        } else {
            m
        }
    }
}

/// The document as screen lines: the framed, centered rendering for the
/// current terminal width.
pub open spec fn document_lines(
    content: Seq<char>,
    file_path: Option<Seq<char>>,
    display_name: Seq<char>,
    custom_width: Option<usize>,
    cols: nat,
) -> Seq<Seq<char>> {
    let cw = content_width_spec(custom_width, cols);
    let pad = left_pad_spec(custom_width, cols, true);
    let rendered = finish_spec(run_spec(initial_state(cw), markdown_events(content)));
    let full = if file_path is Some {
        header_spec(display_name, cw) + rendered + footer_spec(cw)
    } else {
        rendered
    };
    split_lines(centered(full, pad))
}

/// Re-renders for the current size; an active search is re-run.
pub open spec fn recompute_spec(v: ViewState) -> ViewState {
    let lines = document_lines(v.content, v.file_path, v.display_name, v.custom_width, v.cols);
    ViewState {
        lines,
        matches: match v.query {
            Some(q) => match_indices(lines, q, lines.len()),
            None => v.matches,
        },
        ..v
    }
}

/// Index of the first match after line `s`, from match `i` on.
pub open spec fn first_after(ms: Seq<nat>, s: nat, i: int) -> Option<nat>
    decreases ms.len() - i,
{
    if i < 0 || i >= ms.len() {
        None
    } else if ms[i] > s {
        Some(i as nat)
    } else {
        first_after(ms, s, i + 1)
    }
}

/// Index of the last match before line `s`, among the first `n` matches.
pub open spec fn last_before(ms: Seq<nat>, s: nat, n: int) -> Option<nat>
    decreases n,
{
    if n <= 0 {
        None
    } else if ms[n - 1] < s {
        Some((n - 1) as nat)
    } else {
        last_before(ms, s, n - 1)
    }
}

/// The status shown after jumping to match `idx` of `total` on line `line`.
pub open spec fn match_status(idx: nat, total: nat, line: nat) -> Seq<char> {
    "["@ + decimal(idx + 1) + "/"@ + decimal(total) + "] Match at line "@ + decimal(line + 1)
}

/// The match the jump rule picks: the first match below the top line (the
/// last one above it when `reverse`), wrapping around.
pub open spec fn match_from_top(v: ViewState, reverse: bool) -> nat {
    let ms = v.matches;
    let total = ms.len();
    if reverse {
        match last_before(ms, v.scroll, total as int) {
            Some(i) => i,
            None => (total - 1) as nat,
        }
    } else {
        match first_after(ms, v.scroll, 0) {
            Some(i) => i,
            None => 0,
        }
    }
}

/// Jumps to the next match (the previous one when `reverse`): the first
/// match below the top line (the last one above it), wrapping around; when
/// that is the current match already, the one after it (before it), again
/// wrapping. Reports when there is none.
pub open spec fn jump_spec(v: ViewState, reverse: bool) -> ViewState {
    let ms = v.matches;
    if ms.len() == 0 {
        ViewState { status: Some("Pattern not found"@), ..v }
    } else {
        let total = ms.len();
        let c = match_from_top(v, reverse);
        let idx: nat = if v.current == Some(c) {
            if reverse {
                if c == 0 { (total - 1) as nat } else { (c - 1) as nat }
            } else {
                if c + 1 < total { c + 1 } else { 0 }
            }
        } else {
            c
        };
        let target = ms[idx as int];
        ViewState {
            current: Some(idx),
            scroll: min_nat(target, max_scroll(v)),
            status: Some(match_status(idx, total, target)),
            ..v
        }
    }
}

/// Runs a search for `q` and jumps to its first hit in the given direction.
pub open spec fn search_spec(v: ViewState, q: Seq<char>, reverse: bool) -> ViewState {
    let v1 = ViewState { matches: match_indices(v.lines, q, v.lines.len()), query: Some(q), current: None, ..v };
    jump_spec(v1, reverse)
}

pub open spec fn clear_pending(v: ViewState) -> ViewState {
    ViewState { pending_g: false, pending_z: false, ..v }
}

/// The value of an ASCII digit key.
pub open spec fn digit_of(c: char) -> nat {
    ((c as u32) - ('0' as u32)) as nat
}

pub open spec fn is_digit_key(k: KeyInput) -> bool {
    k.no_modifiers && (k.code matches Key::Char(c) && '0' <= c && c <= '9')
}

/// A key in normal mode: counts, scrolling, jumps, search, commands, help.
/// The result is the new state and whether the pager quits.
pub open spec fn normal_key_spec(v: ViewState, k: KeyInput) -> (ViewState, bool) {
    let vh = viewport_height(v);
    let half = if vh / 2 >= 1 { vh / 2 } else { 1 };
    let full = if vh >= 1 { vh } else { 1 };
    let v1 = ViewState { status: None, ..v };
    if is_digit_key(k) {
        let c = k.code->Char_0;
        if c == '0' && v.prefix == 0 {
            (ViewState { scroll: 0, ..v1 }, false)
        } else {
            (ViewState { prefix: v.prefix * 10 + digit_of(c), ..v1 }, false)
        }
    } else {
        let prefix = v.prefix;
        let count = if prefix > 0 { prefix } else { 1 };
        let v2 = ViewState { prefix: 0, ..v1 };
        match k.code {
            Key::Char('q') => (v2, true),
            Key::Char('j') | Key::Down | Key::Enter => (clear_pending(scroll_down_spec(v2, count)), false),
            Key::Char('e') if k.ctrl => (scroll_down_spec(v2, count), false),
            Key::Char('k') | Key::Up => (clear_pending(scroll_up_spec(v2, count)), false),
            Key::Char('y') if k.ctrl => (scroll_up_spec(v2, count), false),
            Key::Char('d') => (clear_pending(scroll_down_spec(v2, half * count)), false),
            Key::Char('u') => (clear_pending(scroll_up_spec(v2, half * count)), false),
            Key::Char('f') => (clear_pending(scroll_down_spec(v2, full * count)), false),
            Key::PageDown if !k.ctrl => (clear_pending(scroll_down_spec(v2, full * count)), false),
            Key::Char(' ') if !k.ctrl => (clear_pending(scroll_down_spec(v2, full * count)), false),
            Key::Char('b') | Key::PageUp => (clear_pending(scroll_up_spec(v2, full * count)), false),
            Key::Char('g') => if v.pending_g {
                (ViewState { scroll: 0, pending_g: false, pending_z: false, ..v2 }, false)
            } else {
                (ViewState { pending_g: true, pending_z: false, ..v2 }, false)
            },
            Key::Home => (clear_pending(ViewState { scroll: 0, ..v2 }), false),
            Key::Char('G') | Key::End => {
                let s = if prefix > 0 { min_nat(sat_sub(prefix, 1), max_scroll(v2)) } else { max_scroll(v2) };
                (clear_pending(ViewState { scroll: s, ..v2 }), false)
            },
            Key::Char('Z') => if v.pending_z {
                (v2, true)
            } else {
                (ViewState { pending_z: true, ..v2 }, false)
            },
            Key::Char('/') => (clear_pending(ViewState { mode: ModeView::Search(Seq::empty(), false), ..v2 }), false),
            Key::Char('?') => (clear_pending(ViewState { mode: ModeView::Search(Seq::empty(), true), ..v2 }), false),
            Key::Char('n') => (jump_spec(v2, false), false),
            Key::Char('N') => (jump_spec(v2, true), false),
            Key::Char(':') => (clear_pending(ViewState { mode: ModeView::Command(Seq::empty()), ..v2 }), false),
            Key::F(1) => (ViewState { mode: ModeView::Help, ..v2 }, false),
            Key::Esc => (
                ViewState { query: None, matches: Seq::empty(), current: None, ..clear_pending(v2) },
                false,
            ),
            _ => (clear_pending(v2), false),
        }
    }
}

/// Whether a command quits the pager.
pub open spec fn is_quit_command(cmd: Seq<char>) -> bool {
    cmd == "q"@ || cmd == "q!"@ || cmd == "quit"@ || cmd == "qa"@ || cmd == "qa!"@ || cmd == "exit"@
}

/// Runs the typed command `cmd` (already trimmed) from command mode.
pub open spec fn run_command_spec(v: ViewState, cmd: Seq<char>) -> (ViewState, bool) {
    let normal = ViewState { mode: ModeView::Normal, ..v };
    if is_quit_command(cmd) {
        (v, true)
    } else if cmd == "h"@ || cmd == "help"@ {
        (ViewState { mode: ModeView::Help, ..v }, false)
    } else if cmd.len() > 0 && all_digits(cmd) {
        match parse_usize_spec(cmd) {
            Some(n) => (ViewState { scroll: min_nat(sat_sub(n, 1), max_scroll(v)), ..normal }, false),
            None => (normal, false),
        }
    } else if cmd == "top"@ || cmd == "0"@ {
        (ViewState { scroll: 0, ..normal }, false)
    } else if cmd == "bot"@ || cmd == "$"@ {
        (ViewState { scroll: max_scroll(v), ..normal }, false)
    } else if cmd.len() == 0 {
        (normal, false)
    } else {
        (ViewState { status: Some("Unknown command: :"@ + cmd), ..normal }, false)
    }
}

/// A key in command mode: editing the command line, running it, leaving.
pub open spec fn command_key_spec(v: ViewState, buf: Seq<char>, k: KeyInput) -> (ViewState, bool) {
    match k.code {
        Key::Enter => run_command_spec(v, trim_ws(buf)),
        Key::Esc => (ViewState { mode: ModeView::Normal, ..v }, false),
        Key::Backspace => {
            let b = if buf.len() > 0 { buf.drop_last() } else { buf };
            if b.len() == 0 {
                (ViewState { mode: ModeView::Normal, ..v }, false)
            } else {
                (ViewState { mode: ModeView::Command(b), ..v }, false)
            }
        },
        Key::Char(c) => (ViewState { mode: ModeView::Command(buf.push(c)), ..v }, false),
        _ => (v, false),
    }
}

/// A key in search mode: editing the pattern, searching, leaving.
pub open spec fn search_key_spec(v: ViewState, buf: Seq<char>, reverse: bool, k: KeyInput) -> ViewState {
    match k.code {
        Key::Enter => {
            let q = trim_ws(buf);
            let v1 = if q.len() > 0 { search_spec(v, q, reverse) } else { v };
            ViewState { mode: ModeView::Normal, ..v1 }
        },
        Key::Esc => ViewState { mode: ModeView::Normal, ..v },
        Key::Backspace => {
            let b = if buf.len() > 0 { buf.drop_last() } else { buf };
            if b.len() == 0 {
                ViewState { mode: ModeView::Normal, ..v }
            } else {
                ViewState { mode: ModeView::Search(b, reverse), ..v }
            }
        },
        Key::Char(c) => ViewState { mode: ModeView::Search(buf.push(c), reverse), ..v },
        _ => v,
    }
}

/// A key in any mode; in the help screen any key closes it.
pub open spec fn key_spec(v: ViewState, k: KeyInput) -> (ViewState, bool) {
    match v.mode {
        ModeView::Normal => normal_key_spec(v, k),
        ModeView::Command(buf) => command_key_spec(v, buf, k),
        ModeView::Search(buf, reverse) => (search_key_spec(v, buf, reverse, k), false),
        ModeView::Help => (ViewState { mode: ModeView::Normal, ..v }, false),
    }
}

/// The effect of one terminal event, and whether the pager quits.
pub open spec fn event_spec(v: ViewState, ev: ViewerEvent) -> (ViewState, bool) {
    match ev {
        ViewerEvent::Key(k) => key_spec(v, k),
        ViewerEvent::Mouse(MouseAction::ScrollDown) => (scroll_down_spec(v, 3), false),
        ViewerEvent::Mouse(MouseAction::ScrollUp) => (scroll_up_spec(v, 3), false),
        ViewerEvent::Mouse(MouseAction::Other) => (v, false),
        ViewerEvent::Resize(cols, rows) => (
            clamp_spec(recompute_spec(ViewState { cols: cols as nat, rows: rows as nat, ..v })),
            false,
        ),
        ViewerEvent::Other => (v, false),
    }
}

/// The events the pager accepts: a digit that would make the count exceed
/// `usize` is refused (it overflows the count).
pub open spec fn event_ok(v: ViewState, ev: ViewerEvent) -> bool {
    match ev {
        ViewerEvent::Key(k) => !(v.mode is Normal && is_digit_key(k) && !(k.code == Key::Char('0') && v.prefix == 0)
            && v.prefix * 10 + digit_of(k.code->Char_0) > usize::MAX),
        _ => true,
    }
}

/// Every event keeps the top line within the document: once the scroll
/// offset is at most the last screenful's start, it stays so, whatever key,
/// mouse or resize event arrives.
pub proof fn law_scroll_stays_in_range(v: ViewState, ev: ViewerEvent)
    requires
        v.scroll <= max_scroll(v),
    ensures
        event_spec(v, ev).0.scroll <= max_scroll(event_spec(v, ev).0),
{
    match ev {
        ViewerEvent::Key(k) => {
            match v.mode {
                ModeView::Normal => {},
                ModeView::Command(buf) => {
                    let cmd = trim_ws(buf);
                    if k.code == Key::Enter && cmd.len() > 0 && all_digits(cmd) {
                        assert(run_command_spec(v, cmd).0.scroll <= max_scroll(v));
                    }
                },
                ModeView::Search(buf, reverse) => {
                    let q = trim_ws(buf);
                    if k.code == Key::Enter && q.len() > 0 {
                        let v1 = ViewState {
                            matches: match_indices(v.lines, q, v.lines.len()),
                            query: Some(q),
                            ..v
                        };
                        assert(max_scroll(v1) == max_scroll(v));
                    }
                },
                ModeView::Help => {},
            }
        },
        _ => {},
    }
}

/// A pager opens at the top of its document, within range.
pub proof fn law_opening_in_range(
    content: Seq<char>,
    file_path: Option<Seq<char>>,
    display_name: Seq<char>,
    custom_width: Option<usize>,
    cols: nat,
    rows: nat,
)
    ensures
        ({
            let v = recompute_spec(opening_state(content, file_path, display_name, custom_width, cols, rows));
            v.scroll == 0 && v.scroll <= max_scroll(v)
        }),
{
}

/// The search hits are exactly the matching lines, in increasing order:
/// `match_indices(lines, q, n)` holds `j` if and only if `j < n` and line
/// `j` matches `q`, and each hit comes before the next.
pub proof fn law_search_hits(lines: Seq<Seq<char>>, q: Seq<char>, n: nat)
    requires
        n <= lines.len(),
    ensures
        forall|j: nat| #[trigger] match_indices(lines, q, n).contains(j) <==> (j < n && line_matches(lines[j as int], q)),
        forall|a: int, b: int|
            0 <= a < b < match_indices(lines, q, n).len() ==> #[trigger] match_indices(lines, q, n)[a]
                < #[trigger] match_indices(lines, q, n)[b],
    decreases n,
{
    if n > 0 {
        law_search_hits(lines, q, (n - 1) as nat);
        let m = match_indices(lines, q, (n - 1) as nat);
        assert forall|j: nat| #[trigger] match_indices(lines, q, n).contains(j) <==> (j < n && line_matches(lines[j as int], q)) by {
            if line_matches(lines[n - 1], q) {
                let m2 = m.push((n - 1) as nat);
                if m2.contains(j) && j != n - 1 {
                    let t = choose|t: int| 0 <= t < m2.len() && m2[t] == j;
                    assert(t < m.len());
                    assert(m.contains(j));
                }
                if m.contains(j) {
                    let t = choose|t: int| 0 <= t < m.len() && m[t] == j;
                    assert(m2[t] == j);
                }
                if j == n - 1 {
                    assert(m2[m.len() as int] == j);
                }
            }
        }
        if line_matches(lines[n - 1], q) {
            let m2 = m.push((n - 1) as nat);
            assert forall|a: int, b: int| 0 <= a < b < m2.len() implies #[trigger] m2[a] < #[trigger] m2[b] by {
                if b == m.len() {
                    assert(m.contains(m[a]));
                }
            }
        }
    }
}

proof fn lemma_last_before(ms: Seq<nat>, s: nat, n: int)
    requires
        0 <= n <= ms.len(),
    ensures
        match last_before(ms, s, n) {
            Some(i) => i < n && ms[i as int] < s && forall|j: int| i < j < n ==> #[trigger] ms[j] >= s,
            None => forall|j: int| 0 <= j < n ==> #[trigger] ms[j] >= s,
        },
    decreases n,
{
    if n > 0 && !(ms[n - 1] < s) {
        lemma_last_before(ms, s, n - 1);
    }
}

proof fn lemma_first_after(ms: Seq<nat>, s: nat, i: int)
    requires
        0 <= i,
    ensures
        match first_after(ms, s, i) {
            Some(t) => i <= t < ms.len() && ms[t as int] > s && forall|j: int| i <= j < t ==> #[trigger] ms[j] <= s,
            None => forall|j: int| i <= j < ms.len() ==> #[trigger] ms[j] <= s,
        },
    decreases ms.len() - i,
{
    if i < ms.len() && !(ms[i] > s) {
        lemma_first_after(ms, s, i + 1);
    }
}

/// The paging keys move the view by whole and half screens. In normal mode
/// a screen is the rows above the status line (at least one), times the
/// count typed before the key (one when none was typed): `b` and PageUp
/// move the top line up a screen, stopping at the first line; `f`,
/// PageDown and Space move it down a screen, stopping at the last
/// screenful; `u` and `d` move half a screen (at least one line) up and
/// down; `k` and Up move one line up, `j`, Down and Enter one line down
/// (times the count). None of them quits, and each clears the count.
pub proof fn law_paging_keys(v: ViewState, k: KeyInput)
    requires
        v.mode is Normal,
    ensures
        ({
            let text_rows: nat = if v.rows >= 1 { (v.rows - 1) as nat } else { 0 };
            let page: nat = if text_rows >= 1 { text_rows } else { 1 };
            let half: nat = if text_rows >= 2 { text_rows / 2 } else { 1 };
            let count: nat = if v.prefix > 0 { v.prefix } else { 1 };
            let last: nat = if v.lines.len() >= text_rows { (v.lines.len() - text_rows) as nat } else { 0 };
            let up = |d: nat| if v.scroll >= d { (v.scroll - d) as nat } else { 0nat };
            let down = |d: nat| if v.scroll + d <= last { v.scroll + d } else { last };
            let (r, quit) = key_spec(v, k);
            &&& (k.code == Key::Char('b') || k.code == Key::PageUp) ==> r.scroll == up(page * count) && !quit
                && r.prefix == 0
            &&& (k.code == Key::Char('f') || (k.code == Key::PageDown && !k.ctrl) || (k.code == Key::Char(' ')
                && !k.ctrl)) ==> r.scroll == down(page * count) && !quit && r.prefix == 0
            &&& k.code == Key::Char('u') ==> r.scroll == up(half * count) && !quit && r.prefix == 0
            &&& k.code == Key::Char('d') ==> r.scroll == down(half * count) && !quit && r.prefix == 0
            &&& (k.code == Key::Char('j') || k.code == Key::Down || k.code == Key::Enter) ==> r.scroll == down(count)
                && !quit && r.prefix == 0
            &&& (k.code == Key::Char('k') || k.code == Key::Up) ==> r.scroll == up(count) && !quit && r.prefix == 0
        }),
{
}

/// Submitting a search from its prompt jumps by the direction the prompt
/// was opened in. After `/` (forward) the hit is the first matching line
/// below the top line, or the first hit of all when none is below; after
/// `?` (backward) it is the last matching line above the top line, or the
/// last hit of all when none is above. The view moves to that line, as far
/// as the last screenful allows, the hits are those of the typed pattern
/// (trimmed), and the prompt closes.
pub proof fn law_search_submit(v: ViewState, buf: Seq<char>, reverse: bool, k: KeyInput)
    requires
        v.mode == ModeView::Search(buf, reverse),
        k.code == Key::Enter,
        trim_ws(buf).len() > 0,
        match_indices(v.lines, trim_ws(buf), v.lines.len()).len() > 0,
    ensures
        ({
            let ms = match_indices(v.lines, trim_ws(buf), v.lines.len());
            let (r, quit) = key_spec(v, k);
            &&& !quit
            &&& r.mode is Normal
            &&& r.query == Some(trim_ws(buf))
            &&& r.matches == ms
            &&& r.current matches Some(i) && i < ms.len() && r.scroll == (if ms[i as int] <= max_scroll(v) {
                ms[i as int]
            } else {
                max_scroll(v)
            }) && (reverse ==> if exists|j: int| 0 <= j < ms.len() && #[trigger] ms[j] < v.scroll {
                ms[i as int] < v.scroll && forall|j: int| i < j < ms.len() ==> #[trigger] ms[j] >= v.scroll
            } else {
                i == ms.len() - 1
            }) && (!reverse ==> if exists|j: int| 0 <= j < ms.len() && #[trigger] ms[j] > v.scroll {
                ms[i as int] > v.scroll && forall|j: int| 0 <= j < i ==> #[trigger] ms[j] <= v.scroll
            } else {
                i == 0
            })
        }),
{
    let q = trim_ws(buf);
    let ms = match_indices(v.lines, q, v.lines.len());
    let v1 = ViewState { matches: ms, query: Some(q), current: None, ..v };
    assert(max_scroll(v1) == max_scroll(v));
    lemma_last_before(ms, v.scroll, ms.len() as int);
    lemma_first_after(ms, v.scroll, 0);
    let c = match_from_top(v1, reverse);
    assert(key_spec(v, k).0.current == Some(c));
    if reverse {
        match last_before(ms, v.scroll, ms.len() as int) {
            Some(i) => {},
            None => {
                assert(!exists|j: int| 0 <= j < ms.len() && #[trigger] ms[j] < v.scroll);
            },
        }
    } else {
        match first_after(ms, v.scroll, 0) {
            Some(i) => {},
            None => {
                assert(!exists|j: int| 0 <= j < ms.len() && #[trigger] ms[j] > v.scroll);
            },
        }
    }
}

/// The interactive pager over one rendered document.
pub struct Viewer {
    content: String,
    file_path: Option<String>,
    display_name: String,
    custom_width: Option<usize>,
    lines: Vec<String>,
    scroll_offset: usize,
    term_cols: usize,
    term_rows: usize,
    input_mode: InputMode,
    status_message: Option<String>,
    pending_g: bool,
    pending_z: bool,
    number_prefix: usize,
    search_query: Option<String>,
    search_matches: Vec<usize>,
    current_match_idx: Option<usize>,
}

pub open spec fn opt_view(o: Option<String>) -> Option<Seq<char>> {
    match o {
        Some(s) => Some(s@),
        None => None,
    }
}

pub open spec fn mode_view(m: InputMode) -> ModeView {
    match m {
        InputMode::Normal => ModeView::Normal,
        InputMode::Command { buffer } => ModeView::Command(buffer@),
        InputMode::Search { buffer, reverse } => ModeView::Search(buffer@, reverse),
        InputMode::Help => ModeView::Help,
    }
}

pub open spec fn usizes_view(v: Seq<usize>) -> Seq<nat> {
    v.map_values(|x: usize| x as nat)
}

impl View for Viewer {
    type V = ViewState;

    closed spec fn view(&self) -> ViewState {
        ViewState {
            content: self.content@,
            file_path: opt_view(self.file_path),
            display_name: self.display_name@,
            custom_width: self.custom_width,
            lines: strings_view(self.lines@),
            scroll: self.scroll_offset as nat,
            cols: self.term_cols as nat,
            rows: self.term_rows as nat,
            mode: mode_view(self.input_mode),
            status: opt_view(self.status_message),
            pending_g: self.pending_g,
            pending_z: self.pending_z,
            prefix: self.number_prefix as nat,
            query: opt_view(self.search_query),
            matches: usizes_view(self.search_matches@),
            current: match self.current_match_idx {
                Some(i) => Some(i as nat),
                None => None,
            },
        }
    }
}

/// Terminal sizes come as `u16`.
pub open spec fn size_ok(v: ViewState) -> bool {
    v.cols <= u16::MAX && v.rows <= u16::MAX
}

/// The state a pager opens in, before its first rendering.
pub open spec fn opening_state(
    content: Seq<char>,
    file_path: Option<Seq<char>>,
    display_name: Seq<char>,
    custom_width: Option<usize>,
    cols: nat,
    rows: nat,
) -> ViewState {
    ViewState {
        content,
        file_path,
        display_name,
        custom_width,
        lines: Seq::empty(),
        scroll: 0,
        cols,
        rows,
        mode: ModeView::Normal,
        status: None,
        pending_g: false,
        pending_z: false,
        prefix: 0,
        query: None,
        matches: Seq::empty(),
        current: None,
    }
}

/// Whether `needle` occurs in `hay`, by trying each position.
fn contains_chars(hay: &Vec<char>, needle: &Vec<char>) -> (b: bool)
    ensures
        b == seq_contains(hay@, needle@),
{
    let mut i: usize = 0;
    loop
        invariant
            i <= hay@.len(),
            forall|j: int| 0 <= j < i ==> !(j + needle@.len() <= hay@.len() && #[trigger] hay@.subrange(j, j + needle@.len()) == needle@),
        decreases hay@.len() - i,
    {
        if matches_at(hay, i, needle) {
            return true;
        }
        if i == hay.len() {
            assert forall|j: int| 0 <= j && j + needle@.len() <= hay@.len() implies #[trigger] hay@.subrange(j, j + needle@.len()) != needle@ by {
                assert(j < i || j == i);
            }
            return false;
        }
        i += 1;
    }
}

/// Position of the last match before line `s`.
fn find_last_before(ms: &Vec<usize>, s: usize) -> (r: Option<usize>)
    ensures
        match last_before(usizes_view(ms@), s as nat, ms@.len() as int) {
            Some(i) => r == Some(i as usize),
            None => r is None,
        },
{
    let ghost mv = usizes_view(ms@);
    let mut n = ms.len();
    while n > 0
        invariant
            n <= ms@.len(),
            mv == usizes_view(ms@),
            last_before(mv, s as nat, ms@.len() as int) == last_before(mv, s as nat, n as int),
        decreases n,
    {
        if ms[n - 1] < s {
            return Some(n - 1);
        }
        n -= 1;
    }
    None
}

/// Position of the first match after line `s`.
fn find_first_after(ms: &Vec<usize>, s: usize) -> (r: Option<usize>)
    ensures
        match first_after(usizes_view(ms@), s as nat, 0) {
            Some(i) => r == Some(i as usize),
            None => r is None,
        },
{
    let ghost mv = usizes_view(ms@);
    let mut i: usize = 0;
    while i < ms.len()
        invariant
            i <= ms@.len(),
            mv == usizes_view(ms@),
            first_after(mv, s as nat, 0) == first_after(mv, s as nat, i as int),
        decreases ms@.len() - i,
    {
        if ms[i] > s {
            return Some(i);
        }
        i += 1;
    }
    None
}

impl Viewer {
    /// A pager for `content`, titled by `display_name` when a file path is
    /// given, in a terminal of `cols` by `rows`.
    pub fn new(
        content: &str,
        file_path: Option<&str>,
        display_name: &str,
        custom_width: Option<usize>,
        cols: u16,
        rows: u16,
    ) -> (v: Self)
        ensures
            v@ == recompute_spec(opening_state(
                content@,
                match file_path {
                    Some(p) => Some(p@),
                    None => None,
                },
                display_name@,
                custom_width,
                cols as nat,
                rows as nat,
            )),
            size_ok(v@),
    {
        let mut viewer = Viewer {
            content: content.to_owned(),
            file_path: match file_path {
                Some(p) => Some(p.to_owned()),
                None => None,
            },
            display_name: display_name.to_owned(),
            custom_width,
            lines: Vec::new(),
            scroll_offset: 0,
            term_cols: cols as usize,
            term_rows: rows as usize,
            input_mode: InputMode::Normal,
            status_message: None,
            pending_g: false,
            pending_z: false,
            number_prefix: 0,
            search_query: None,
            search_matches: Vec::new(),
            current_match_idx: None,
        };
        assert(viewer@ =~= opening_state(
            content@,
            match file_path {
                Some(p) => Some(p@),
                None => None,
            },
            display_name@,
            custom_width,
            cols as nat,
            rows as nat,
        ));
        viewer.recompute_lines();
        viewer
    }

    /// The screen lines of the document, re-rendered for the current width.
    fn recompute_lines(&mut self)
        ensures
            final(self)@ == recompute_spec(old(self)@),
    {
        let layout = compute_layout(self.custom_width, self.term_cols, true);
        let renderer = MarkdownRenderer::new(layout.content_width);
        proof {
            assert(crate::render::counters_below(renderer@, u64::MAX as nat));
        }
        let rendered = renderer.render(self.content.as_str());
        let mut full: Vec<char> = Vec::new();
        if self.file_path.is_some() {
            let header = format_bat_header(self.display_name.as_str(), layout.content_width);
            push_str(&mut full, header.as_str());
        }
        push_str(&mut full, rendered.as_str());
        if self.file_path.is_some() {
            let footer = format_bat_footer(layout.content_width);
            push_str(&mut full, footer.as_str());
        }
        let full_s = string_of(full.as_slice());
        let centered_s = apply_centering(full_s.as_str(), layout.left_pad);
        let pieces = split_lines_exec(chars_of(centered_s.as_str()).as_slice());
        let ghost pv = vecs_view(pieces@);
        let mut lines: Vec<String> = Vec::new();
        let mut k: usize = 0;
        while k < pieces.len()
            invariant
                k <= pieces@.len(),
                pv == vecs_view(pieces@),
                strings_view(lines@) == pv.take(k as int),
            decreases pieces@.len() - k,
        {
            let ghost before = strings_view(lines@);
            lines.push(string_of(pieces[k].as_slice()));
            assert(strings_view(lines@) == before.push(pieces@[k as int]@));
            k += 1;
            assert(pv.take(k as int) =~= pv.take(k - 1).push(pv[k - 1]));
        }
        assert(pv.take(pieces@.len() as int) == pv);
        self.lines = lines;
        assert(strings_view(self.lines@) == document_lines(
            old(self)@.content,
            old(self)@.file_path,
            old(self)@.display_name,
            old(self)@.custom_width,
            old(self)@.cols,
        ));
        let query = match &self.search_query {
            Some(q) => Some(chars_of(q.as_str())),
            None => None,
        };
        match query {
            Some(q) => {
                self.update_search_matches(&q);
            },
            None => {},
        }
        assert(self@ =~= recompute_spec(old(self)@));
    }

    /// Sets the matches to the lines whose visible text contains `query`,
    /// ignoring case.
    fn update_search_matches(&mut self, query: &Vec<char>)
        ensures
            final(self)@ == (ViewState {
                matches: match_indices(old(self)@.lines, query@, old(self)@.lines.len()),
                ..old(self)@
            }),
    {
        let q_lower = lowercase_chars(query);
        let ghost lv = strings_view(self.lines@);
        let mut matches: Vec<usize> = Vec::new();
        let mut idx: usize = 0;
        assert(usizes_view(matches@) =~= match_indices(lv, query@, 0));
        while idx < self.lines.len()
            invariant
                idx <= self.lines@.len(),
                lv == strings_view(self.lines@),
                q_lower@ == lowercase(query@),
                usizes_view(matches@) == match_indices(lv, query@, idx as nat),
            decreases self.lines@.len() - idx,
        {
            let plain = strip_chars(&chars_of(self.lines[idx].as_str()));
            let lower = lowercase_chars(&plain);
            assert(lv[idx as int] == self.lines@[idx as int]@);
            if contains_chars(&lower, &q_lower) {
                let ghost before = usizes_view(matches@);
                matches.push(idx);
                assert(usizes_view(matches@) == before.push(idx as nat));
            }
            idx += 1;
        }
        self.search_matches = matches;
        assert(self@ =~= ViewState {
            matches: match_indices(old(self)@.lines, query@, old(self)@.lines.len()),
            ..old(self)@
        });
    }

    fn viewport_height(&self) -> (h: usize)
        ensures
            h == viewport_height(self@),
    {
        if self.term_rows >= 1 { self.term_rows - 1 } else { 0 }
    }

    fn max_scroll(&self) -> (m: usize)
        ensures
            m == max_scroll(self@),
    {
        let vh = self.viewport_height();
        if self.lines.len() >= vh { self.lines.len() - vh } else { 0 }
    }

    fn clamp_scroll(&mut self)
        ensures
            final(self)@ == clamp_spec(old(self)@),
    {
        let max_s = self.max_scroll();
        if self.scroll_offset > max_s {
            self.scroll_offset = max_s;
        }
        assert(self@ =~= clamp_spec(old(self)@));
    }

    /// Scrolls down by `a * b` lines, stopping at the last screenful.
    fn scroll_down(&mut self, a: usize, b: usize)
        ensures
            final(self)@ == scroll_down_spec(old(self)@, (a * b) as nat),
    {
        let max_s = self.max_scroll();
        proof {
            lemma_product_fits(a, b);
        }
        let wanted: u128 = self.scroll_offset as u128 + (a as u128) * (b as u128);
        self.scroll_offset = if wanted <= max_s as u128 { wanted as usize } else { max_s };
        assert(self@ =~= scroll_down_spec(old(self)@, (a * b) as nat));
    }

    /// Scrolls up by `a * b` lines, stopping at the top.
    fn scroll_up(&mut self, a: usize, b: usize)
        ensures
            final(self)@ == scroll_up_spec(old(self)@, (a * b) as nat),
    {
        proof {
            lemma_product_fits(a, b);
        }
        let n: u128 = (a as u128) * (b as u128);
        self.scroll_offset = if (self.scroll_offset as u128) >= n { (self.scroll_offset as u128 - n) as usize } else { 0 };
        assert(self@ =~= scroll_up_spec(old(self)@, (a * b) as nat));
    }

    /// Moves to the next (or previous) match, wrapping around.
    fn jump_next_match(&mut self, reverse: bool)
        ensures
            final(self)@ == jump_spec(old(self)@, reverse),
    {
        let ghost ms = usizes_view(self.search_matches@);
        if self.search_matches.len() == 0 {
            self.status_message = Some("Pattern not found".to_owned());
            assert(self@ =~= jump_spec(old(self)@, reverse));
            return;
        }
        let total = self.search_matches.len();
        let from_top: usize = if reverse {
            match find_last_before(&self.search_matches, self.scroll_offset) {
                Some(i) => i,
                None => total - 1,
            }
        } else {
            match find_first_after(&self.search_matches, self.scroll_offset) {
                Some(i) => i,
                None => 0,
            }
        };
        proof {
            if reverse {
                lemma_last_before_bound(ms, self.scroll_offset as nat, total as int);
            } else {
                lemma_first_after_bound(ms, self.scroll_offset as nat, 0);
            }
        }
        assert(from_top == match_from_top(self@, reverse));
        let is_current = match self.current_match_idx {
            Some(c) => c == from_top,
            None => false,
        };
        let next_idx: usize = if is_current {
            if reverse {
                if from_top == 0 { total - 1 } else { from_top - 1 }
            } else {
                if from_top + 1 < total { from_top + 1 } else { 0 }
            }
        } else {
            from_top
        };
        let target = self.search_matches[next_idx];
        let max_s = self.max_scroll();
        self.current_match_idx = Some(next_idx);
        self.scroll_offset = if target <= max_s { target } else { max_s };
        let mut msg: Vec<char> = Vec::new();
        push_str(&mut msg, "[");
        push_all(&mut msg, decimal_exec(next_idx + 1).as_slice());
        push_str(&mut msg, "/");
        push_all(&mut msg, decimal_exec(total).as_slice());
        push_str(&mut msg, "] Match at line ");
        proof {
            assert(target as nat == ms[next_idx as int]);
        }
        let line_no = decimal_u128_of(target as u128 + 1);
        push_all(&mut msg, line_no.as_slice());
        self.status_message = Some(string_of(msg.as_slice()));
        assert(self@ =~= jump_spec(old(self)@, reverse));
    }
}

proof fn lemma_product_fits(a: usize, b: usize)
    ensures
        (a as int) * (b as int) <= 0xffff_ffff_ffff_fffe_0000_0000_0000_0001int,
{
    assert((a as int) * (b as int) <= 0xffff_ffff_ffff_fffe_0000_0000_0000_0001int) by (nonlinear_arith)
        requires
            0 <= a <= 0xffff_ffff_ffff_ffffint,
            0 <= b <= 0xffff_ffff_ffff_ffffint,
    ;
}

proof fn lemma_last_before_bound(ms: Seq<nat>, s: nat, n: int)
    requires
        n <= ms.len(),
    ensures
        last_before(ms, s, n) matches Some(i) ==> i < n,
    decreases n,
{
    if n > 0 && !(ms[n - 1] < s) {
        lemma_last_before_bound(ms, s, n - 1);
    }
}

proof fn lemma_first_after_bound(ms: Seq<nat>, s: nat, i: int)
    requires
        0 <= i,
    ensures
        first_after(ms, s, i) matches Some(j) ==> j < ms.len(),
    decreases ms.len() - i,
{
    if i < ms.len() && !(ms[i] > s) {
        lemma_first_after_bound(ms, s, i + 1);
    }
}

/// Whether a character sequence spells a given string.
fn eq_str(cs: &Vec<char>, lit: &str) -> (b: bool)
    ensures
        b == (cs@ == lit@),
{
    let l = chars_of(lit);
    if cs.len() != l.len() {
        return false;
    }
    let mut i: usize = 0;
    while i < cs.len()
        invariant
            i <= cs@.len(),
            cs@.len() == l@.len(),
            l@ == lit@,
            forall|j: int| 0 <= j < i ==> cs@[j] == l@[j],
        decreases cs@.len() - i,
    {
        if cs[i] != l[i] {
            return false;
        }
        i += 1;
    }
    assert(cs@ =~= l@);
    true
}

/// Decimal digits of a wide number.
fn decimal_u128_of(n: u128) -> (out: Vec<char>)
    ensures
        out@ == decimal(n as nat),
    decreases n,
{
    if n < 10 {
        let mut out: Vec<char> = Vec::new();
        out.push(digit_of_u128(n));
        assert(out@ == seq![crate::text::digit_char(n as nat)]);
        out
    } else {
        let mut out = decimal_u128_of(n / 10);
        out.push(digit_of_u128(n % 10));
        out
    }
}

fn digit_of_u128(d: u128) -> (c: char)
    requires
        d < 10,
    ensures
        c == crate::text::digit_char(d as nat),
{
    if d == 0 { '0' }
    else if d == 1 { '1' }
    else if d == 2 { '2' }
    else if d == 3 { '3' }
    else if d == 4 { '4' }
    else if d == 5 { '5' }
    else if d == 6 { '6' }
    else if d == 7 { '7' }
    else if d == 8 { '8' }
    else { '9' }
}

impl Viewer {
    #[verifier::rlimit(50)]
    fn handle_normal_key(&mut self, key: KeyInput) -> (quit: bool)
        requires
            old(self)@.mode is Normal,
            event_ok(old(self)@, ViewerEvent::Key(key)),
        ensures
            (final(self)@, quit) == normal_key_spec(old(self)@, key),
    {
        let half_page = if self.viewport_height() / 2 >= 1 { self.viewport_height() / 2 } else { 1 };
        let full_page = if self.viewport_height() >= 1 { self.viewport_height() } else { 1 };
        self.status_message = None;
        let ghost v1 = self@;
        if key.no_modifiers {
            if let Key::Char(c) = key.code {
                if '0' <= c && c <= '9' {
                    if c == '0' && self.number_prefix == 0 {
                        self.scroll_offset = 0;
                        assert((self@, false) =~= normal_key_spec(old(self)@, key));
                        return false;
                    }
                    let d = (c as u32 - '0' as u32) as usize;
                    self.number_prefix = self.number_prefix * 10 + d;
                    assert((self@, false) =~= normal_key_spec(old(self)@, key));
                    return false;
                }
            }
        }
        let prefix = self.number_prefix;
        let count = if prefix > 0 { prefix } else { 1 };
        self.number_prefix = 0;
        let quit = match key.code {
            Key::Char('q') => true,
            Key::Char('j') | Key::Down | Key::Enter => {
                self.scroll_down(count, 1);
                self.pending_g = false;
                self.pending_z = false;
                false
            },
            Key::Char('e') if key.ctrl => {
                self.scroll_down(count, 1);
                false
            },
            Key::Char('k') | Key::Up => {
                self.scroll_up(count, 1);
                self.pending_g = false;
                self.pending_z = false;
                false
            },
            Key::Char('y') if key.ctrl => {
                self.scroll_up(count, 1);
                false
            },
            Key::Char('d') => {
                self.scroll_down(half_page, count);
                self.pending_g = false;
                self.pending_z = false;
                false
            },
            Key::Char('u') => {
                self.scroll_up(half_page, count);
                self.pending_g = false;
                self.pending_z = false;
                false
            },
            Key::Char('f') => {
                self.scroll_down(full_page, count);
                self.pending_g = false;
                self.pending_z = false;
                false
            },
            Key::PageDown if !key.ctrl => {
                self.scroll_down(full_page, count);
                self.pending_g = false;
                self.pending_z = false;
                false
            },
            Key::Char(' ') if !key.ctrl => {
                self.scroll_down(full_page, count);
                self.pending_g = false;
                self.pending_z = false;
                false
            },
            Key::Char('b') | Key::PageUp => {
                self.scroll_up(full_page, count);
                self.pending_g = false;
                self.pending_z = false;
                false
            },
            Key::Char('g') => {
                if self.pending_g {
                    self.scroll_offset = 0;
                    self.pending_g = false;
                } else {
                    self.pending_g = true;
                }
                self.pending_z = false;
                false
            },
            Key::Home => {
                self.scroll_offset = 0;
                self.pending_g = false;
                self.pending_z = false;
                false
            },
            Key::Char('G') | Key::End => {
                let max_s = self.max_scroll();
                if prefix > 0 {
                    let p = prefix - 1;
                    self.scroll_offset = if p <= max_s { p } else { max_s };
                } else {
                    self.scroll_offset = max_s;
                }
                self.pending_g = false;
                self.pending_z = false;
                false
            },
            Key::Char('Z') => {
                if self.pending_z {
                    true
                } else {
                    self.pending_z = true;
                    false
                }
            },
            Key::Char('/') => {
                let b: Vec<char> = Vec::new();
                assert(b@ =~= Seq::<char>::empty());
                self.input_mode = InputMode::Search { buffer: b, reverse: false };
                self.pending_g = false;
                self.pending_z = false;
                false
            },
            Key::Char('?') => {
                let b: Vec<char> = Vec::new();
                assert(b@ =~= Seq::<char>::empty());
                self.input_mode = InputMode::Search { buffer: b, reverse: true };
                self.pending_g = false;
                self.pending_z = false;
                false
            },
            Key::Char('n') => {
                self.jump_next_match(false);
                false
            },
            Key::Char('N') => {
                self.jump_next_match(true);
                false
            },
            Key::Char(':') => {
                let b: Vec<char> = Vec::new();
                assert(b@ =~= Seq::<char>::empty());
                self.input_mode = InputMode::Command { buffer: b };
                self.pending_g = false;
                self.pending_z = false;
                false
            },
            Key::F(1) => {
                self.input_mode = InputMode::Help;
                false
            },
            Key::Esc => {
                self.pending_g = false;
                self.pending_z = false;
                self.search_query = None;
                let m: Vec<usize> = Vec::new();
                assert(usizes_view(m@) =~= Seq::<nat>::empty());
                self.search_matches = m;
                self.current_match_idx = None;
                false
            },
            _ => {
                self.pending_g = false;
                self.pending_z = false;
                false
            },
        };
        assert((self@, quit) =~= normal_key_spec(old(self)@, key));
        quit
    }
}

fn all_digits_exec(cs: &Vec<char>) -> (b: bool)
    ensures
        b == all_digits(cs@),
{
    let mut i: usize = 0;
    while i < cs.len()
        invariant
            i <= cs@.len(),
            forall|j: int| 0 <= j < i ==> #[trigger] crate::text::is_digit(cs@[j]),
        decreases cs@.len() - i,
    {
        if !('0' <= cs[i] && cs[i] <= '9') {
            assert(!crate::text::is_digit(cs@[i as int]));
            return false;
        }
        i += 1;
    }
    true
}

impl Viewer {
    fn run_command(&mut self, cmd: &Vec<char>) -> (quit: bool)
        ensures
            (final(self)@, quit) == run_command_spec(old(self)@, cmd@),
    {
        if eq_str(cmd, "q") || eq_str(cmd, "q!") || eq_str(cmd, "quit") || eq_str(cmd, "qa") || eq_str(cmd, "qa!")
            || eq_str(cmd, "exit") {
            return true;
        }
        if eq_str(cmd, "h") || eq_str(cmd, "help") {
            self.input_mode = InputMode::Help;
            assert((self@, false) =~= run_command_spec(old(self)@, cmd@));
            return false;
        }
        if cmd.len() > 0 && all_digits_exec(cmd) {
            let text = string_of(cmd.as_slice());
            match parse_usize(text.as_str()) {
                Some(n) => {
                    let max_s = self.max_scroll();
                    let p = if n >= 1 { n - 1 } else { 0 };
                    self.scroll_offset = if p <= max_s { p } else { max_s };
                },
                None => {},
            }
            self.input_mode = InputMode::Normal;
            assert((self@, false) =~= run_command_spec(old(self)@, cmd@));
            return false;
        }
        if eq_str(cmd, "top") || eq_str(cmd, "0") {
            self.scroll_offset = 0;
            self.input_mode = InputMode::Normal;
            assert((self@, false) =~= run_command_spec(old(self)@, cmd@));
            return false;
        }
        if eq_str(cmd, "bot") || eq_str(cmd, "$") {
            self.scroll_offset = self.max_scroll();
            self.input_mode = InputMode::Normal;
            assert((self@, false) =~= run_command_spec(old(self)@, cmd@));
            return false;
        }
        if cmd.len() == 0 {
            self.input_mode = InputMode::Normal;
            assert((self@, false) =~= run_command_spec(old(self)@, cmd@));
            return false;
        }
        let mut msg: Vec<char> = Vec::new();
        push_str(&mut msg, "Unknown command: :");
        push_all(&mut msg, cmd.as_slice());
        self.status_message = Some(string_of(msg.as_slice()));
        self.input_mode = InputMode::Normal;
        assert((self@, false) =~= run_command_spec(old(self)@, cmd@));
        false
    }

    fn handle_command_key(&mut self, key: KeyInput) -> (quit: bool)
        requires
            old(self)@.mode is Command,
        ensures
            (final(self)@, quit) == command_key_spec(old(self)@, old(self)@.mode->Command_0, key),
    {
        let mut mode = InputMode::Normal;
        std::mem::swap(&mut mode, &mut self.input_mode);
        let mut buffer = match mode {
            InputMode::Command { buffer } => buffer,
            _ => Vec::new(),
        };
        let ghost buf = buffer@;
        match key.code {
            Key::Enter => {
                let cmd = trim_chars(&buffer);
                self.input_mode = InputMode::Command { buffer };
                assert(self@ =~= old(self)@);
                self.run_command(&cmd)
            },
            Key::Esc => {
                assert((self@, false) =~= command_key_spec(old(self)@, buf, key));
                false
            },
            Key::Backspace => {
                let _ = buffer.pop();
                if buffer.len() > 0 {
                    self.input_mode = InputMode::Command { buffer };
                }
                assert((self@, false) =~= command_key_spec(old(self)@, buf, key));
                false
            },
            Key::Char(c) => {
                buffer.push(c);
                self.input_mode = InputMode::Command { buffer };
                assert((self@, false) =~= command_key_spec(old(self)@, buf, key));
                false
            },
            _ => {
                self.input_mode = InputMode::Command { buffer };
                assert((self@, false) =~= command_key_spec(old(self)@, buf, key));
                false
            },
        }
    }

    fn handle_search_key(&mut self, key: KeyInput)
        requires
            old(self)@.mode is Search,
        ensures
            final(self)@ == search_key_spec(
                old(self)@,
                old(self)@.mode->Search_0,
                old(self)@.mode->Search_1,
                key,
            ),
    {
        let mut mode = InputMode::Normal;
        std::mem::swap(&mut mode, &mut self.input_mode);
        let (mut buffer, reverse) = match mode {
            InputMode::Search { buffer, reverse } => (buffer, reverse),
            _ => (Vec::new(), false),
        };
        let ghost buf = buffer@;
        match key.code {
            Key::Enter => {
                let query = trim_chars(&buffer);
                self.input_mode = InputMode::Search { buffer, reverse };
                assert(self@ =~= old(self)@);
                if query.len() > 0 {
                    self.update_search_matches(&query);
                    self.search_query = Some(string_of(query.as_slice()));
                    self.current_match_idx = None;
                    self.jump_next_match(reverse);
                }
                self.input_mode = InputMode::Normal;
            },
            Key::Esc => {},
            Key::Backspace => {
                let _ = buffer.pop();
                if buffer.len() > 0 {
                    self.input_mode = InputMode::Search { buffer, reverse };
                }
            },
            Key::Char(c) => {
                buffer.push(c);
                self.input_mode = InputMode::Search { buffer, reverse };
            },
            _ => {
                self.input_mode = InputMode::Search { buffer, reverse };
            },
        }
        assert(self@ =~= search_key_spec(old(self)@, buf, reverse, key));
    }

    fn handle_key(&mut self, key: KeyInput) -> (quit: bool)
        requires
            event_ok(old(self)@, ViewerEvent::Key(key)),
        ensures
            (final(self)@, quit) == key_spec(old(self)@, key),
    {
        match self.input_mode {
            InputMode::Normal => self.handle_normal_key(key),
            InputMode::Command { .. } => self.handle_command_key(key),
            InputMode::Search { .. } => {
                self.handle_search_key(key);
                false
            },
            InputMode::Help => {
                self.input_mode = InputMode::Normal;
                assert((self@, false) =~= key_spec(old(self)@, key));
                false
            },
        }
    }

    /// Applies one terminal event; the result tells whether to quit.
    pub fn handle_event(&mut self, event: ViewerEvent) -> (quit: bool)
        requires
            event_ok(old(self)@, event),
        ensures
            (final(self)@, quit) == event_spec(old(self)@, event),
            size_ok(old(self)@) ==> size_ok(final(self)@),
            old(self)@.scroll <= max_scroll(old(self)@) ==> final(self)@.scroll <= max_scroll(final(self)@),
    {
        proof {
            if old(self)@.scroll <= max_scroll(old(self)@) {
                law_scroll_stays_in_range(old(self)@, event);
            }
        }
        match event {
            ViewerEvent::Key(k) => self.handle_key(k),
            ViewerEvent::Mouse(MouseAction::ScrollDown) => {
                self.scroll_down(3, 1);
                false
            },
            ViewerEvent::Mouse(MouseAction::ScrollUp) => {
                self.scroll_up(3, 1);
                false
            },
            ViewerEvent::Mouse(MouseAction::Other) => false,
            ViewerEvent::Resize(cols, rows) => {
                self.term_cols = cols as usize;
                self.term_rows = rows as usize;
                self.recompute_lines();
                self.clamp_scroll();
                false
            },
            ViewerEvent::Other => false,
        }
    }

    /// Whether the pager accepts an event (see `event_ok`).
    pub fn accepts(&self, event: ViewerEvent) -> (ok: bool)
        ensures
            ok == event_ok(self@, event),
    {
        match event {
            ViewerEvent::Key(k) => {
                let is_normal = match self.input_mode {
                    InputMode::Normal => true,
                    _ => false,
                };
                if is_normal && k.no_modifiers {
                    if let Key::Char(c) = k.code {
                        if '0' <= c && c <= '9' && !(c == '0' && self.number_prefix == 0) {
                            let d = (c as u32 - '0' as u32) as usize;
                            return self.number_prefix <= (usize::MAX - d) / 10;
                        }
                    }
                }
                true
            },
            _ => true,
        }
    }
}

/// The percentage shown in the status line: `Top`, `Bot`, or how far
/// down the top line is (at least 1%).
pub open spec fn pct_text(v: ViewState) -> Seq<char> {
    let total = v.lines.len();
    if total == 0 || v.scroll == 0 {
        "Top"@
    } else if v.scroll >= max_scroll(v) {
        "Bot"@
    } else {
        let p = v.scroll * 100 / total;
        decimal(if p >= 1 { p } else { 1 }) + "%"@
    }
}

/// The prompt being typed and, at the right end of the line, the mode's
/// label in reverse video.
pub open spec fn prompt_line(v: ViewState, prompt: Seq<char>, buf: Seq<char>, label: Seq<char>) -> Seq<char> {
    let used = utf8_len_seq(prompt) + utf8_len_seq(buf) + utf8_len_seq(label);
    prompt + buf + repeat_char(' ', sat_sub(v.cols, used)) + "\x1b[7m\x1b[1m"@ + label + "\x1b[0m\x1b[K"@
}

/// The bottom status line: the command or search being typed with a
/// `[COMMAND]` or `[SEARCH]` label, else the status message, else the
/// `[NORMAL]` label, file name and position in reverse video, spread over
/// the terminal width (counted in bytes).
pub open spec fn statusline_spec(v: ViewState) -> Seq<char> {
    match v.mode {
        ModeView::Command(buf) => prompt_line(v, ":"@, buf, " [COMMAND] "@),
        ModeView::Search(buf, reverse) => prompt_line(v, if reverse { "?"@ } else { "/"@ }, buf, " [SEARCH] "@),
        _ => match v.status {
            Some(msg) => "\x1b[7m\x1b[1m "@ + msg + " \x1b[0m\x1b[K"@,
            None => {
                let total = v.lines.len();
                let current = min_nat(v.scroll + 1, total);
                let name = match v.file_path {
                    Some(p) => p,
                    None => "stdin"@,
                };
                let file_str = " "@ + name + " "@;
                let pos_str = " "@ + pct_text(v) + "  [Line "@ + decimal(current) + "/"@ + decimal(total) + "] "@;
                let used = utf8_len_seq("[NORMAL]"@) + utf8_len_seq(file_str) + utf8_len_seq(pos_str);
                "\x1b[7m\x1b[1m"@ + "[NORMAL]"@ + "\x1b[22m"@ + file_str + repeat_char(' ', sat_sub(v.cols, used))
                    + pos_str + "\x1b[0m\x1b[K"@
            },
        },
    }
}

/// The cursor-positioning sequence for column `x`, row `y` (zero-based).
pub open spec fn move_to(x: nat, y: nat) -> Seq<char> {
    "\x1b["@ + decimal(y + 1) + ";"@ + decimal(x + 1) + "H"@
}

/// The lines of the help box.
pub open spec fn help_lines() -> Seq<Seq<char>> {
    seq![
        "┌──────────────────────────── mat Help ───────────────────────────┐"@,
        "│                                                                  │"@,
        "│  Navigation:                                                     │"@,
        "│    j / k, ↓ / ↑           Scroll down / up by 1 line             │"@,
        "│    d / u, Ctrl+d / u      Scroll down / up by half page          │"@,
        "│    f / b, PageDown / Up   Scroll down / up by full page          │"@,
        "│    gg / G                 Jump to beginning / end of document    │"@,
        "│    <number>G              Jump to specific line number           │"@,
        "│    Touchpad / Mouse       Smooth vertical scrolling              │"@,
        "│                                                                  │"@,
        "│  Search & Commands:                                              │"@,
        "│    /pattern               Search forward                         │"@,
        "│    ?pattern               Search backward                        │"@,
        "│    n / N                  Next / previous search match           │"@,
        "│    :q, q, ZZ              Quit mat                               │"@,
        "│    :help, F1              Toggle this help screen                │"@,
        "│                                                                  │"@,
        "│                 Press Esc or q to close help                     │"@,
        "└──────────────────────────────────────────────────────────────────┘"@
    ]
}

fn help_line(i: usize) -> (l: &'static str)
    requires
        i < 19,
    ensures
        l@ == help_lines()[i as int],
{
    match i {
        0 => "┌──────────────────────────── mat Help ───────────────────────────┐",
        1 => "│                                                                  │",
        2 => "│  Navigation:                                                     │",
        3 => "│    j / k, ↓ / ↑           Scroll down / up by 1 line             │",
        4 => "│    d / u, Ctrl+d / u      Scroll down / up by half page          │",
        5 => "│    f / b, PageDown / Up   Scroll down / up by full page          │",
        6 => "│    gg / G                 Jump to beginning / end of document    │",
        7 => "│    <number>G              Jump to specific line number           │",
        8 => "│    Touchpad / Mouse       Smooth vertical scrolling              │",
        9 => "│                                                                  │",
        10 => "│  Search & Commands:                                              │",
        11 => "│    /pattern               Search forward                         │",
        12 => "│    ?pattern               Search backward                        │",
        13 => "│    n / N                  Next / previous search match           │",
        14 => "│    :q, q, ZZ              Quit mat                               │",
        15 => "│    :help, F1              Toggle this help screen                │",
        16 => "│                                                                  │",
        17 => "│                 Press Esc or q to close help                     │",
        _ => "└──────────────────────────────────────────────────────────────────┘",
    }
}

/// The help box drawn centered over the text, in reverse video.
pub open spec fn help_overlay_spec(v: ViewState) -> Seq<char> {
    let x = sat_sub(v.cols, 68) / 2;
    let y = sat_sub(viewport_height(v), 19) / 2;
    Seq::new(19, |i: int| move_to(x, y + i as nat) + "\x1b[7m\x1b[1m"@ + help_lines()[i] + "\x1b[0m"@).flatten()
}

/// Where the cursor goes: after the typed command or pattern on the status
/// line (shown), or hidden.
pub open spec fn cursor_spec(v: ViewState) -> Seq<char> {
    let cap = sat_sub(v.cols, 1);
    match v.mode {
        ModeView::Command(buf) => move_to(min_nat(1 + utf8_len_seq(buf), cap), viewport_height(v)) + "\x1b[?25h"@,
        ModeView::Search(buf, _) => move_to(min_nat(1 + utf8_len_seq(buf), cap), viewport_height(v)) + "\x1b[?25h"@,
        _ => "\x1b[?25l"@,
    }
}

/// One text row of the screen: document line `scroll + i`, or a dim `~`
/// past the end, then a reset and an erase to the end of the row.
pub open spec fn screen_row(v: ViewState, i: nat) -> Seq<char> {
    (if v.scroll + i < v.lines.len() { v.lines[(v.scroll + i) as int] } else { "\x1b[2m~\x1b[0m"@ }) + "\x1b[0m\x1b[K\r\n"@
}

/// A whole frame: cursor home, the text rows, the status line, the help box
/// in help mode, and the cursor.
pub open spec fn frame_spec(v: ViewState) -> Seq<char> {
    "\x1b[H"@ + Seq::new(viewport_height(v), |i: int| screen_row(v, i as nat)).flatten() + statusline_spec(v)
        + (if v.mode is Help { help_overlay_spec(v) } else { Seq::empty() }) + cursor_spec(v)
}

fn push_move_to(out: &mut Vec<char>, x: usize, y: usize)
    requires
        x < usize::MAX,
        y < usize::MAX,
    ensures
        final(out)@ == old(out)@ + move_to(x as nat, y as nat),
{
    push_str(out, "\x1b[");
    push_all(out, decimal_exec(y + 1).as_slice());
    push_str(out, ";");
    push_all(out, decimal_exec(x + 1).as_slice());
    push_str(out, "H");
}

impl Viewer {
    fn prompt_line(&self, prompt: &str, buf: &Vec<char>, label: &str) -> (line: Vec<char>)
        ensures
            line@ == prompt_line(self@, prompt@, buf@, label@),
    {
        let used = utf8_len_exec(&chars_of(prompt)) + utf8_len_exec(buf) + utf8_len_exec(&chars_of(label));
        let gap: u128 = if self.term_cols as u128 >= used { self.term_cols as u128 - used } else { 0 };
        let mut out: Vec<char> = Vec::new();
        push_str(&mut out, prompt);
        push_all(&mut out, buf.as_slice());
        push_repeat_wide(&mut out, ' ', gap);
        push_str(&mut out, "\x1b[7m\x1b[1m");
        push_str(&mut out, label);
        push_str(&mut out, "\x1b[0m\x1b[K");
        assert(out@ =~= prompt_line(self@, prompt@, buf@, label@));
        out
    }

    fn render_statusline(&self) -> (line: Vec<char>)
        ensures
            line@ == statusline_spec(self@),
    {
        let mut out: Vec<char> = Vec::new();
        match &self.input_mode {
            InputMode::Command { buffer } => {
                out = self.prompt_line(":", buffer, " [COMMAND] ");
            },
            InputMode::Search { buffer, reverse } => {
                out = self.prompt_line(if *reverse { "?" } else { "/" }, buffer, " [SEARCH] ");
            },
            _ => {
                match &self.status_message {
                    Some(msg) => {
                        push_str(&mut out, "\x1b[7m\x1b[1m ");
                        push_str(&mut out, msg.as_str());
                        push_str(&mut out, " \x1b[0m\x1b[K");
                    },
                    None => {
                        let total = self.lines.len();
                        let current: usize = if self.scroll_offset < total { self.scroll_offset + 1 } else { total };
                        let mut pct: Vec<char> = Vec::new();
                        if total == 0 || self.scroll_offset == 0 {
                            push_str(&mut pct, "Top");
                        } else if self.scroll_offset >= self.max_scroll() {
                            push_str(&mut pct, "Bot");
                        } else {
                            let p = (self.scroll_offset as u128 * 100) / total as u128;
                            let shown = if p >= 1 { p } else { 1 };
                            push_all(&mut pct, decimal_u128_of(shown).as_slice());
                            push_str(&mut pct, "%");
                        }
                        assert(pct@ == pct_text(self@));
                        let mut file_str: Vec<char> = Vec::new();
                        push_str(&mut file_str, " ");
                        match &self.file_path {
                            Some(p) => push_str(&mut file_str, p.as_str()),
                            None => push_str(&mut file_str, "stdin"),
                        }
                        push_str(&mut file_str, " ");
                        let mut pos_str: Vec<char> = Vec::new();
                        push_str(&mut pos_str, " ");
                        push_all(&mut pos_str, pct.as_slice());
                        push_str(&mut pos_str, "  [Line ");
                        push_all(&mut pos_str, decimal_exec(current).as_slice());
                        push_str(&mut pos_str, "/");
                        push_all(&mut pos_str, decimal_exec(total).as_slice());
                        push_str(&mut pos_str, "] ");
                        let used = utf8_len_exec(&chars_of("[NORMAL]")) + utf8_len_exec(&file_str) + utf8_len_exec(&pos_str);
                        let gap: u128 = if self.term_cols as u128 >= used { self.term_cols as u128 - used } else { 0 };
                        push_str(&mut out, "\x1b[7m\x1b[1m");
                        push_str(&mut out, "[NORMAL]");
                        push_str(&mut out, "\x1b[22m");
                        push_all(&mut out, file_str.as_slice());
                        push_repeat_wide(&mut out, ' ', gap);
                        push_all(&mut out, pos_str.as_slice());
                        push_str(&mut out, "\x1b[0m\x1b[K");
                    },
                }
            },
        }
        assert(out@ =~= statusline_spec(self@));
        out
    }

    fn render_help_overlay(&self) -> (out: Vec<char>)
        requires
            size_ok(self@),
        ensures
            out@ == help_overlay_spec(self@),
    {
        let x = (if self.term_cols >= 68 { self.term_cols - 68 } else { 0 }) / 2;
        let vh = self.viewport_height();
        let y = (if vh >= 19 { vh - 19 } else { 0 }) / 2;
        let ghost parts = Seq::new(19, |i: int| move_to(x as nat, y as nat + i as nat) + "\x1b[7m\x1b[1m"@ + help_lines()[i] + "\x1b[0m"@);
        let mut out: Vec<char> = Vec::new();
        let mut idx: usize = 0;
        assert(out@ =~= parts.take(0).flatten());
        while idx < 19
            invariant
                idx <= 19,
                x < 40000,
                y < 40000,
                parts == Seq::new(19, |i: int| move_to(x as nat, y as nat + i as nat) + "\x1b[7m\x1b[1m"@ + help_lines()[i] + "\x1b[0m"@),
                out@ == parts.take(idx as int).flatten(),
            decreases 19 - idx,
        {
            let mut piece: Vec<char> = Vec::new();
            push_move_to(&mut piece, x, y + idx);
            push_str(&mut piece, "\x1b[7m\x1b[1m");
            push_str(&mut piece, help_line(idx));
            push_str(&mut piece, "\x1b[0m");
            assert(piece@ =~= parts[idx as int]);
            push_all(&mut out, piece.as_slice());
            proof {
                parts.take(idx as int).lemma_flatten_push(parts[idx as int]);
                assert(parts.take(idx + 1) == parts.take(idx as int).push(parts[idx as int]));
            }
            idx += 1;
        }
        assert(parts.take(19) == parts);
        out
    }

    /// The screen for the current state, as the text to write to the terminal.
    pub fn frame(&self) -> (out: String)
        requires
            size_ok(self@),
        ensures
            out@ == frame_spec(self@),
    {
        let mut out: Vec<char> = Vec::new();
        push_str(&mut out, "\x1b[H");
        let vh = self.viewport_height();
        let total = self.lines.len();
        let ghost rows = Seq::new(vh as nat, |i: int| screen_row(self@, i as nat));
        let ghost start = out@;
        let mut i: usize = 0;
        assert(out@ =~= start + rows.take(0).flatten());
        while i < vh
            invariant
                i <= vh,
                vh == viewport_height(self@),
                total == self@.lines.len(),
                rows == Seq::new(vh as nat, |i: int| screen_row(self@, i as nat)),
                out@ == start + rows.take(i as int).flatten(),
            decreases vh - i,
        {
            let mut row: Vec<char> = Vec::new();
            if self.scroll_offset < total && i < total - self.scroll_offset {
                let line_idx = self.scroll_offset + i;
                push_str(&mut row, self.lines[line_idx].as_str());
            } else {
                push_str(&mut row, "\x1b[2m~\x1b[0m");
            }
            push_str(&mut row, "\x1b[0m\x1b[K\r\n");
            assert(row@ =~= rows[i as int]);
            push_all(&mut out, row.as_slice());
            proof {
                rows.take(i as int).lemma_flatten_push(rows[i as int]);
                assert(rows.take(i + 1) == rows.take(i as int).push(rows[i as int]));
            }
            i += 1;
        }
        assert(rows.take(vh as int) == rows);
        let status = self.render_statusline();
        push_all(&mut out, status.as_slice());
        let ghost before_help = out@;
        match self.input_mode {
            InputMode::Help => {
                let overlay = self.render_help_overlay();
                push_all(&mut out, overlay.as_slice());
            },
            _ => {},
        }
        let cap = if self.term_cols >= 1 { self.term_cols - 1 } else { 0 };
        match &self.input_mode {
            InputMode::Command { buffer } => {
                let w = utf8_len_exec(buffer);
                let x = if w < cap as u128 { (w + 1) as usize } else { cap };
                push_move_to(&mut out, x, vh);
                push_str(&mut out, "\x1b[?25h");
            },
            InputMode::Search { buffer, .. } => {
                let w = utf8_len_exec(buffer);
                let x = if w < cap as u128 { (w + 1) as usize } else { cap };
                push_move_to(&mut out, x, vh);
                push_str(&mut out, "\x1b[?25h");
            },
            _ => {
                push_str(&mut out, "\x1b[?25l");
            },
        }
        let res = string_of(out.as_slice());
        assert(res@ =~= frame_spec(self@));
        res
    }
}

} // verus!
