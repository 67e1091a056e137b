//! Rendering of a Markdown event stream into framed, colored terminal lines.

use vstd::prelude::*;
use crate::parse::{markdown_events, parse_markdown};
use crate::layout::sat_sub;
use crate::syntax::{highlight_code, highlight_spec, SyntaxState};
use crate::table::{rows_view, table_fits, render_table_spec, Align, TableData};
use crate::terminal::{
    blank_runs_collapsed, collapse_blank_lines, collapse_spec, compute_smart_indent, law_collapse_blank_lines, smart_indent_spec,
    visible_width_chars, visible_width_spec, wrap_ansi, wrap_spec,
};
use crate::text::{
    append_lines, push_repeat_wide, chars_of, decimal, decimal_exec, join_lines, join_lines_exec, push_all, push_repeat, push_str,
    repeat_char, replace_all, replace_chars, string_of, strings_view, trim_chars, trim_ws,
    utf8_len_exec, utf8_len_seq, vecs_view,
};

verus! {

/// Heading depth, `#` to `######`.
#[derive(Clone, Copy, Debug, PartialEq, Eq, Structural)]
pub enum HeadingLevel {
    H1,
    H2,
    H3,
    H4,
    H5,
    H6,
}

/// Kind of a GitHub alert block quote (`> [!NOTE]` and the like).
#[derive(Clone, Copy, Debug, PartialEq, Eq, Structural)]
pub enum AlertKind {
    Note,
    Tip,
    Important,
    Warning,
    Caution,
}

/// One event of the Markdown parse the renderer reads, in document order.
pub enum MdEvent {
    StartHeading,
    EndHeading(HeadingLevel),
    Rule,
    /// A code block opens; its fence info string (empty for indented code).
    StartCodeBlock(String),
    EndCodeBlock,
    StartBlockQuote(Option<AlertKind>),
    EndBlockQuote,
    StartTable(Vec<Align>),
    EndTable,
    StartTableHead,
    EndTableHead,
    StartTableRow,
    EndTableRow,
    StartTableCell,
    EndTableCell,
    /// A list opens; the first number of an ordered list.
    StartList(Option<u64>),
    EndList,
    StartItem,
    EndItem,
    TaskListMarker(bool),
    /// A link opens; its destination.
    StartLink(String),
    EndLink,
    StartParagraph,
    EndParagraph,
    StartEmphasis,
    EndEmphasis,
    StartStrong,
    EndStrong,
    StartStrikethrough,
    EndStrikethrough,
    Code(String),
    Text(String),
    SoftBreak,
    HardBreak,
    /// Any event the renderer ignores.
    Other,
}

/// A table under construction, as values.
pub type TableView = (Seq<Align>, Seq<Seq<char>>, Seq<Seq<Seq<char>>>);

/// The renderer's state as values.
#[verifier::ext_equal]
pub struct RenderState {
    pub term_width: nat,
    pub output: Seq<Seq<char>>,
    pub text: Seq<char>,
    pub code: Option<(Seq<char>, Seq<char>)>,
    pub table: Option<TableView>,
    pub in_head: bool,
    pub row: Seq<Seq<char>>,
    pub cell: Seq<char>,
    pub lists: Seq<(bool, nat)>,
    pub marker: Option<Seq<char>>,
    pub quotes: Seq<Option<AlertKind>>,
    pub quote_buf: Seq<Seq<char>>,
    pub in_link: bool,
}

pub open spec fn reset() -> Seq<char> {
    "\x1b[0m"@
}

/// Inline text goes to the open table cell inside a table, else to the paragraph text.
pub open spec fn append_spec(st: RenderState, s: Seq<char>) -> RenderState {
    if st.table is Some {
        RenderState { cell: st.cell + s, ..st }
    } else {
        RenderState { text: st.text + s, ..st }
    }
}

/// Task markers written inline (`[ ] `, `[x] `, `[X] `) as ballot glyphs.
pub open spec fn task_markers_spec(s: Seq<char>) -> Seq<char> {
    replace_all(
        replace_all(
            replace_all(s, "[ ] "@, "\x1b[38;2;130;130;130m☐\x1b[0m "@),
            "[x] "@,
            "\x1b[1;32m✔\x1b[0m "@,
        ),
        "[X] "@,
        "\x1b[1;32m✔\x1b[0m "@,
    )
}

/// Ends the open paragraph text: trimmed, it is kept for the enclosing
/// block quote, or wrapped after the pending list marker, or wrapped as a
/// paragraph with a smart hanging indent and followed by an empty line.
pub open spec fn flush_spec(st: RenderState) -> RenderState {
    let trimmed = trim_ws(task_markers_spec(st.text));
    let st1 = RenderState { text: Seq::empty(), ..st };
    if trimmed.len() == 0 {
        st1
    } else if st.quotes.len() > 0 {
        RenderState { quote_buf: st.quote_buf.push(trimmed), ..st1 }
    } else {
        let safe = sat_sub(st.term_width, 4);
        match st.marker {
            Some(m) => RenderState {
                output: st.output + wrap_spec(trimmed, safe, m, repeat_char(' ', visible_width_spec(m))),
                marker: None,
                ..st1
            },
            None => {
                let ind = smart_indent_spec(trimmed);
                RenderState {
                    output: st.output + wrap_spec(trimmed, safe, "  "@ + ind.0, "  "@ + ind.1) + seq![
                        Seq::empty(),
                    ],
                    ..st1
                }
            },
        }
    }
}

/// The styled line of a heading.
pub open spec fn heading_line(level: HeadingLevel, clean: Seq<char>) -> Seq<char> {
    match level {
        HeadingLevel::H1 => "  \x1b[1;93;48;2;36;20;50m"@ + " ▊ "@ + clean + " "@ + reset(),
        HeadingLevel::H2 => "  \x1b[1;95m▌ "@ + clean + reset(),
        HeadingLevel::H3 => "  \x1b[1;96m▎ "@ + clean + reset(),
        HeadingLevel::H4 => "  \x1b[1;92m"@ + clean + reset(),
        HeadingLevel::H5 => "  \x1b[1;38;2;255;159;67m"@ + clean + reset(),
        HeadingLevel::H6 => "  \x1b[1;38;2;84;160;255m"@ + clean + reset(),
    }
}

/// A heading: an empty line, its styled line, an empty line.
pub open spec fn heading_spec(st: RenderState, level: HeadingLevel, text: Seq<char>) -> RenderState {
    RenderState {
        output: st.output + seq![Seq::empty(), heading_line(level, trim_ws(text)), Seq::empty()],
        ..st
    }
}

pub open spec fn code_border() -> Seq<char> {
    "\x1b[38;2;80;80;110m"@
}

pub open spec fn code_num_color() -> Seq<char> {
    "\x1b[38;2;100;100;125m"@
}

/// A number right-aligned in `width` columns.
pub open spec fn pad_num(n: nat, width: nat) -> Seq<char> {
    repeat_char(' ', sat_sub(width, decimal(n).len())) + decimal(n)
}

/// Digits of the gutter: those of the line count (at least 1), at least 2.
pub open spec fn gutter_digits(total: nat) -> nat {
    let d = decimal(if total >= 1 { total } else { 1 }).len();
    if d >= 2 { d } else { 2 }
}

/// The top rule of a code block, with a language badge when one is given.
pub open spec fn code_top_line(lang: Seq<char>, nd: nat, block_width: nat) -> Seq<char> {
    let gutter = repeat_char('─', nd + 2);
    if lang.len() > 0 {
        let tag = " \x1b[1;38;2;165;94;234m"@ + lang + reset() + code_border() + " "@;
        let fill = sat_sub(block_width, (nd + 2) + 3 + (utf8_len_seq(lang) + 2));
        "  "@ + code_border() + gutter + "┬──"@ + tag + code_border() + repeat_char('─', fill) + reset()
    } else {
        "  "@ + code_border() + gutter + "┬"@ + repeat_char('─', sat_sub(block_width, nd + 3)) + reset()
    }
}

/// The gutter of a code line: its number, or blanks on a continuation.
pub open spec fn code_gutter(num: nat, nd: nat, first: bool) -> Seq<char> {
    if first {
        "  "@ + code_num_color() + pad_num(num, nd + 1) + " "@ + code_border() + "│"@ + reset()
    } else {
        "  "@ + repeat_char(' ', nd + 1) + " "@ + code_border() + "│"@ + reset()
    }
}

/// The rendered lines of one highlighted code line: an empty line is just
/// the numbered gutter; otherwise the line wrapped to the content width
/// with a hanging indent (two spaces when the line has none), each piece
/// after the gutter.
pub open spec fn code_line_lines(line: Seq<char>, num: nat, nd: nat, content_width: nat) -> Seq<Seq<char>> {
    let clean = crate::syntax::trim_end_crlf(line);
    if clean.len() == 0 {
        seq![code_gutter(num, nd, true)]
    } else {
        let rest = smart_indent_spec(clean).1;
        let cont = if rest.len() == 0 { "  "@ } else { rest };
        let wrapped = wrap_spec(clean, content_width, Seq::empty(), cont);
        Seq::new(wrapped.len(), |w: int| code_gutter(num, nd, w == 0) + " "@ + wrapped[w])
    }
}

/// The lines of a fenced or indented code block: an empty line, a top
/// rule with the language badge, the highlighted lines with line numbers,
/// a bottom rule, an empty line.
pub open spec fn code_block_lines(term_width: nat, lang: Seq<char>, code: Seq<char>) -> Seq<Seq<char>> {
    let hl = highlight_spec(code, lang);
    let block_width = sat_sub(term_width, 4);
    let nd = gutter_digits(hl.len());
    let content_width = {
        let c = sat_sub(block_width, nd + 4);
        if c >= 20 { c } else { 20 }
    };
    let body = Seq::new(hl.len(), |i: int| code_line_lines(hl[i], (i + 1) as nat, nd, content_width)).flatten();
    let bottom = "  "@ + code_border() + repeat_char('─', nd + 2) + "┴"@ + repeat_char('─', sat_sub(block_width, nd + 3))
        + reset();
    seq![Seq::empty(), code_top_line(trim_ws(lang), nd, block_width)] + body + seq![bottom, Seq::empty()]
}

/// A code block appended to the output.
pub open spec fn code_block_spec(st: RenderState, lang: Seq<char>, code: Seq<char>) -> RenderState {
    RenderState { output: st.output + code_block_lines(st.term_width, lang, code), ..st }
}

/// Color and title of an alert panel.
pub open spec fn alert_style(kind: AlertKind) -> (Seq<char>, Seq<char>) {
    match kind {
        AlertKind::Note => ("\x1b[1;38;2;47;129;247m"@, "ℹ NOTE"@),
        AlertKind::Tip => ("\x1b[1;38;2;46;213;115m"@, "💡 TIP"@),
        AlertKind::Important => ("\x1b[1;38;2;165;94;234m"@, "🟣 IMPORTANT"@),
        AlertKind::Warning => ("\x1b[1;38;2;255;165;2m"@, "⚠️ WARNING"@),
        AlertKind::Caution => ("\x1b[1;38;2;255;71;87m"@, "🛑 CAUTION"@),
    }
}

/// One wrapped line inside an alert panel, padded to the content width.
pub open spec fn alert_body_line(color: Seq<char>, wline: Seq<char>, content_width: nat) -> Seq<char> {
    "  "@ + color + "\x1b[1m│\x1b[0m  "@ + wline + repeat_char(' ', sat_sub(content_width, visible_width_spec(wline)))
        + "  "@ + color + "\x1b[1m│"@ + reset()
}

/// The panel lines of the buffered paragraphs of an alert.
pub open spec fn alert_body(blocks: Seq<Seq<char>>, color: Seq<char>, content_width: nat) -> Seq<Seq<char>> {
    Seq::new(
        blocks.len(),
        |b: int|
            {
                let w = wrap_spec(blocks[b], content_width, Seq::empty(), Seq::empty());
                Seq::new(w.len(), |j: int| alert_body_line(color, w[j], content_width))
            },
    ).flatten()
}

pub open spec fn quote_bar() -> Seq<char> {
    "  \x1b[38;2;253;203;110m│ \x1b[0m\x1b[3m"@
}

/// The lines of the buffered paragraphs of a plain block quote.
pub open spec fn quote_body(blocks: Seq<Seq<char>>, width: nat) -> Seq<Seq<char>> {
    Seq::new(
        blocks.len(),
        |b: int|
            {
                let w = wrap_spec(blocks[b], sat_sub(width, 6), quote_bar(), quote_bar());
                Seq::new(w.len(), |j: int| w[j] + reset())
            },
    ).flatten()
}

/// The lines of a closed block quote holding the paragraphs `blocks`: a
/// rounded alert panel with its title, or a barred, italic quote.
pub open spec fn quote_lines(term_width: nat, ctx: Option<AlertKind>, blocks: Seq<Seq<char>>) -> Seq<Seq<char>> {
    match ctx {
        Some(kind) => {
            let (color, title) = alert_style(kind);
            let box_width = sat_sub(term_width, 4);
            let top = "  "@ + color + "\x1b[1m╭─ "@ + title + " ─"@ + repeat_char(
                '─',
                sat_sub(box_width, 6 + visible_width_spec(title)),
            ) + "╮"@ + reset();
            let bottom = "  "@ + color + "\x1b[1m╰"@ + repeat_char('─', sat_sub(box_width, 2)) + "╯"@ + reset();
            seq![Seq::empty(), top] + alert_body(blocks, color, sat_sub(box_width, 6)) + seq![bottom, Seq::empty()]
        },
        None => seq![Seq::empty()] + quote_body(blocks, term_width) + seq![Seq::empty()],
    }
}

/// Closes a block quote: its buffered paragraphs are drawn (nothing when
/// none was buffered) and the buffer is emptied.
pub open spec fn blockquote_spec(st: RenderState, ctx: Option<AlertKind>) -> RenderState {
    let st1 = RenderState { quote_buf: Seq::empty(), ..st };
    if st.quote_buf.len() == 0 {
        st1
    } else {
        RenderState { output: st.output + quote_lines(st.term_width, ctx, st.quote_buf), ..st1 }
    }
}

/// The indent of a list marker at the current nesting.
pub open spec fn list_indent(depth: nat) -> Seq<char> {
    repeat_char(' ', 2 * sat_sub(depth, 1))
}

/// The lines a finished table contributes: an empty line, the table
/// indented by two columns, an empty line (the drawing is left out when
/// its width does not fit in `usize`).
pub open spec fn table_lines(t: TableView, width: nat) -> Seq<Seq<char>> {
    let drawn = if table_fits(t.0, t.1, t.2) {
        let ls = render_table_spec(t.0, t.1, t.2, sat_sub(width, 4));
        Seq::new(ls.len(), |i: int| "  "@ + ls[i])
    } else {
        Seq::empty()
    };
    seq![Seq::empty()] + drawn + seq![Seq::empty()]
}

/// The effect of one event on the renderer state.
pub open spec fn step_spec(st: RenderState, ev: MdEvent) -> RenderState {
    match ev {
        MdEvent::StartHeading => flush_spec(st),
        MdEvent::EndHeading(level) => heading_spec(RenderState { text: Seq::empty(), ..st }, level, st.text),
        MdEvent::Rule => {
            let f = flush_spec(st);
            RenderState {
                output: f.output + seq![
                    Seq::empty(),
                    "  \x1b[1;38;2;165;94;234m"@ + repeat_char('─', sat_sub(st.term_width, 4)) + reset(),
                    Seq::empty(),
                ],
                ..f
            }
        },
        MdEvent::StartCodeBlock(lang) => RenderState { code: Some((lang@, Seq::empty())), ..flush_spec(st) },
        MdEvent::EndCodeBlock => match st.code {
            Some((lang, code)) => code_block_spec(RenderState { code: None, ..st }, lang, code),
            None => st,
        },
        MdEvent::StartBlockQuote(kind) => {
            let f = flush_spec(st);
            RenderState { quotes: f.quotes.push(kind), ..f }
        },
        MdEvent::EndBlockQuote => {
            let f = flush_spec(st);
            if f.quotes.len() > 0 {
                blockquote_spec(RenderState { quotes: f.quotes.drop_last(), ..f }, f.quotes.last())
            } else {
                f
            }
        },
        MdEvent::StartTable(al) => RenderState {
            table: Some((al@, Seq::empty(), Seq::empty())),
            ..flush_spec(st)
        },
        MdEvent::EndTable => match st.table {
            Some(t) => RenderState { table: None, output: st.output + table_lines(t, st.term_width), ..st },
            None => st,
        },
        MdEvent::StartTableHead => RenderState { in_head: true, row: Seq::empty(), ..st },
        MdEvent::EndTableHead => match st.table {
            Some(t) => RenderState { in_head: false, table: Some((t.0, st.row, t.2)), row: Seq::empty(), ..st },
            None => RenderState { in_head: false, ..st },
        },
        MdEvent::StartTableRow => RenderState { row: Seq::empty(), ..st },
        MdEvent::EndTableRow => match st.table {
            Some(t) => if !st.in_head {
                RenderState { table: Some((t.0, t.1, t.2.push(st.row))), row: Seq::empty(), ..st }
            } else {
                st
            },
            None => st,
        },
        MdEvent::StartTableCell => RenderState { cell: Seq::empty(), ..st },
        MdEvent::EndTableCell => RenderState { row: st.row.push(st.cell), cell: Seq::empty(), ..st },
        MdEvent::StartList(start) => {
            let f = flush_spec(st);
            let ctx = match start {
                Some(n) => (true, n as nat),
                None => (false, 1nat),
            };
            RenderState { lists: f.lists.push(ctx), ..f }
        },
        MdEvent::EndList => {
            let f = flush_spec(st);
            let lists = if f.lists.len() > 0 { f.lists.drop_last() } else { f.lists };
            RenderState {
                lists,
                output: if lists.len() == 0 { f.output.push(Seq::empty()) } else { f.output },
                ..f
            }
        },
        MdEvent::StartItem => {
            let f = flush_spec(st);
            if f.lists.len() > 0 {
                let ctx = f.lists.last();
                let indent = list_indent(f.lists.len());
                if ctx.0 {
                    RenderState {
                        marker: Some(
                            "  "@ + indent + "\x1b[38;2;72;219;251m"@ + decimal(ctx.1) + ".\x1b[0m "@,
                        ),
                        lists: f.lists.update(f.lists.len() - 1, (true, ctx.1 + 1)),
                        ..f
                    }
                } else {
                    RenderState { marker: Some("  "@ + indent + "\x1b[38;2;254;202;87m•\x1b[0m "@), ..f }
                }
            } else {
                f
            }
        },
        MdEvent::EndItem => RenderState { marker: None, ..flush_spec(st) },
        MdEvent::TaskListMarker(checked) => {
            let indent = list_indent(st.lists.len());
            RenderState {
                marker: Some(
                    if checked {
                        "  "@ + indent + "\x1b[1;32m✔\x1b[0m "@
                    } else {
                        "  "@ + indent + "\x1b[38;2;130;130;130m☐\x1b[0m "@
                    },
                ),
                ..st
            }
        },
        MdEvent::StartLink(url) => append_spec(
            RenderState { in_link: true, ..st },
            "\x1b]8;;"@ + url@ + "\x1b\\\x1b[4;38;2;0;210;211m"@,
        ),
        MdEvent::EndLink => RenderState { in_link: false, ..append_spec(st, "\x1b[0m\x1b]8;;\x1b\\"@) },
        MdEvent::StartParagraph => flush_spec(st),
        MdEvent::EndParagraph => flush_spec(st),
        MdEvent::StartEmphasis => append_spec(st, "\x1b[3m"@),
        MdEvent::EndEmphasis => append_spec(st, "\x1b[23m"@),
        MdEvent::StartStrong => append_spec(st, "\x1b[1m"@),
        MdEvent::EndStrong => append_spec(st, "\x1b[22m"@),
        MdEvent::StartStrikethrough => append_spec(st, "\x1b[9m"@),
        MdEvent::EndStrikethrough => append_spec(st, "\x1b[29m"@),
        MdEvent::Code(c) => append_spec(
            st,
            "\x1b[38;2;255;107;107m"@ + c@ + reset() + if st.in_link {
                "\x1b[4;38;2;0;210;211m"@
            } else {
                Seq::empty()
            },
        ),
        MdEvent::Text(t) => match st.code {
            Some((lang, buf)) => RenderState { code: Some((lang, buf + t@)), ..st },
            None => append_spec(st, t@),
        },
        MdEvent::SoftBreak => match st.code {
            Some((lang, buf)) => RenderState { code: Some((lang, buf.push('\n'))), ..st },
            None => append_spec(st, " "@),
        },
        MdEvent::HardBreak => match st.code {
            Some((lang, buf)) => RenderState { code: Some((lang, buf.push('\n'))), ..st },
            None => append_spec(st, "\n"@),
        },
        MdEvent::Other => st,
    }
}

/// The state after a sequence of events.
pub open spec fn run_spec(st: RenderState, evs: Seq<MdEvent>) -> RenderState
    decreases evs.len(),
{
    if evs.len() == 0 {
        st
    } else {
        step_spec(run_spec(st, evs.drop_last()), evs.last())
    }
}

/// A fresh renderer for a column of `term_width` (at least 40).
pub open spec fn initial_state(term_width: nat) -> RenderState {
    RenderState {
        term_width: if term_width >= 40 { term_width } else { 40 },
        output: Seq::empty(),
        text: Seq::empty(),
        code: None,
        table: None,
        in_head: false,
        row: Seq::empty(),
        cell: Seq::empty(),
        lists: Seq::empty(),
        marker: None,
        quotes: Seq::empty(),
        quote_buf: Seq::empty(),
        in_link: false,
    }
}

/// The rendered document: the state after all events, open text flushed,
/// blank runs collapsed, lines joined with newlines.
pub open spec fn finish_spec(st: RenderState) -> Seq<char> {
    join_lines(collapse_spec(flush_spec(st).output))
}

/// A rendered document is its lines joined by newlines, with no two blank
/// lines in a row and no blank line at the start or the end.
pub proof fn law_rendered_without_blank_runs(st: RenderState)
    ensures
        finish_spec(st) == join_lines(collapse_spec(flush_spec(st).output)),
        blank_runs_collapsed(collapse_spec(flush_spec(st).output)),
{
    law_collapse_blank_lines(flush_spec(st).output);
}

proof fn lemma_glyphs()
    ensures
        "\x1b[1;32m✔\x1b[0m "@.contains('✔'),
        !"\x1b[1;32m✔\x1b[0m "@.contains('☐'),
        "\x1b[38;2;130;130;130m☐\x1b[0m "@.contains('☐'),
        !"\x1b[38;2;130;130;130m☐\x1b[0m "@.contains('✔'),
        !"  "@.contains('✔'),
        !"  "@.contains('☐'),
{
    reveal_strlit("\x1b[1;32m✔\x1b[0m ");
    reveal_strlit("\x1b[38;2;130;130;130m☐\x1b[0m ");
    reveal_strlit("  ");
    let c = "\x1b[1;32m✔\x1b[0m "@;
    let u = "\x1b[38;2;130;130;130m☐\x1b[0m "@;
    assert(c[7] == '✔');
    assert(u[19] == '☐');
    assert forall|i: int| 0 <= i < c.len() implies c[i] != '☐' by {
        assert(i == 0 || i == 1 || i == 2 || i == 3 || i == 4 || i == 5 || i == 6 || i == 7 || i == 8 || i == 9
            || i == 10 || i == 11 || i == 12);
    }
    assert forall|i: int| 0 <= i < u.len() implies u[i] != '✔' by {
        assert(i == 0 || i == 1 || i == 2 || i == 3 || i == 4 || i == 5 || i == 6 || i == 7 || i == 8 || i == 9
            || i == 10 || i == 11 || i == 12 || i == 13 || i == 14 || i == 15 || i == 16 || i == 17 || i == 18
            || i == 19 || i == 20 || i == 21 || i == 22 || i == 23 || i == 24);
    }
}

proof fn lemma_contains_cat(a: Seq<char>, b: Seq<char>, c: char)
    ensures
        (a + b).contains(c) == (a.contains(c) || b.contains(c)),
{
    if (a + b).contains(c) {
        let i = choose|i: int| 0 <= i < (a + b).len() && (a + b)[i] == c;
        if i < a.len() {
            assert(a[i] == c);
        } else {
            assert(b[i - a.len()] == c);
        }
    }
    if a.contains(c) {
        let i = choose|i: int| 0 <= i < a.len() && a[i] == c;
        assert((a + b)[i] == c);
    }
    if b.contains(c) {
        let i = choose|i: int| 0 <= i < b.len() && b[i] == c;
        assert((a + b)[a.len() + i] == c);
    }
}

/// A task-list marker shows whether the task is done: the item's marker
/// holds the green check mark ✔ exactly when the task is checked, and the
/// ballot box ☐ exactly when it is not; an open task never shows ✔.
pub proof fn law_task_marker_glyph(st: RenderState, checked: bool)
    ensures
        step_spec(st, MdEvent::TaskListMarker(checked)).marker is Some,
        step_spec(st, MdEvent::TaskListMarker(checked)).marker->0.contains('✔') == checked,
        step_spec(st, MdEvent::TaskListMarker(checked)).marker->0.contains('☐') == !checked,
{
    lemma_glyphs();
    let indent = list_indent(st.lists.len());
    assert(!indent.contains('✔') && !indent.contains('☐'));
    let g = if checked { "\x1b[1;32m✔\x1b[0m "@ } else { "\x1b[38;2;130;130;130m☐\x1b[0m "@ };
    lemma_contains_cat("  "@, indent, '✔');
    lemma_contains_cat("  "@, indent, '☐');
    lemma_contains_cat("  "@ + indent, g, '✔');
    lemma_contains_cat("  "@ + indent, g, '☐');
}

/// Counters of open ordered lists are at most `bound`.
pub open spec fn counters_below(st: RenderState, bound: nat) -> bool {
    forall|i: int| 0 <= i < st.lists.len() ==> #[trigger] st.lists[i].1 <= bound
}

/// An open list: whether it is ordered, and the number of its next item.
struct ListContext {
    is_ordered: bool,
    current_index: u128,
}

/// Renders Markdown events into terminal lines, keeping the open
/// paragraph, code block, table, lists and block quotes.
pub struct MarkdownRenderer {
    term_width: usize,
    output: Vec<String>,
    current_text: Vec<char>,
    code_block: Option<(String, Vec<char>)>,
    table_data: Option<TableData>,
    in_table_head: bool,
    current_table_row: Vec<String>,
    current_cell: Vec<char>,
    list_stack: Vec<ListContext>,
    item_marker_pending: Option<Vec<char>>,
    blockquote_stack: Vec<Option<AlertKind>>,
    blockquote_buffer: Vec<String>,
    in_link: bool,
    syntax: SyntaxState,
}

spec fn lists_view(v: Seq<ListContext>) -> Seq<(bool, nat)> {
    v.map_values(|c: ListContext| (c.is_ordered, c.current_index as nat))
}

impl View for MarkdownRenderer {
    type V = RenderState;

    closed spec fn view(&self) -> RenderState {
        RenderState {
            term_width: self.term_width as nat,
            output: strings_view(self.output@),
            text: self.current_text@,
            code: match self.code_block {
                Some((lang, code)) => Some((lang@, code@)),
                None => None,
            },
            table: match self.table_data {
                Some(t) => Some((t.alignments@, t.headers_view(), t.rows_view())),
                None => None,
            },
            in_head: self.in_table_head,
            row: strings_view(self.current_table_row@),
            cell: self.current_cell@,
            lists: lists_view(self.list_stack@),
            marker: match self.item_marker_pending {
                Some(m) => Some(m@),
                None => None,
            },
            quotes: self.blockquote_stack@,
            quote_buf: strings_view(self.blockquote_buffer@),
            in_link: self.in_link,
        }
    }
}

/// Replaces inline task markers (`[ ] `, `[x] `, `[X] `) by ballot glyphs.
pub fn format_inline_task_markers(s: &str) -> (res: String)
    ensures
        res@ == task_markers_spec(s@),
{
    let cs = chars_of(s);
    let a = replace_chars(&cs, "[ ] ", "\x1b[38;2;130;130;130m☐\x1b[0m ");
    let b = replace_chars(&a, "[x] ", "\x1b[1;32m✔\x1b[0m ");
    let c = replace_chars(&b, "[X] ", "\x1b[1;32m✔\x1b[0m ");
    string_of(c.as_slice())
}

impl MarkdownRenderer {
    /// A renderer for a reading column `term_width` wide (at least 40).
    pub fn new(term_width: usize) -> (r: Self)
        ensures
            r@ == initial_state(term_width as nat),
    {
        let r = MarkdownRenderer {
            term_width: if term_width >= 40 { term_width } else { 40 },
            output: Vec::new(),
            current_text: Vec::new(),
            code_block: None,
            table_data: None,
            in_table_head: false,
            current_table_row: Vec::new(),
            current_cell: Vec::new(),
            list_stack: Vec::new(),
            item_marker_pending: None,
            blockquote_stack: Vec::new(),
            blockquote_buffer: Vec::new(),
            in_link: false,
            syntax: SyntaxState::new(),
        };
        assert(r@ =~= initial_state(term_width as nat));
        r
    }

    fn append_text(&mut self, s: &Vec<char>)
        ensures
            final(self)@ == append_spec(old(self)@, s@),
    {
        if self.table_data.is_some() {
            push_all(&mut self.current_cell, s.as_slice());
        } else {
            push_all(&mut self.current_text, s.as_slice());
        }
        assert(self@ =~= append_spec(old(self)@, s@));
    }

    fn append_str(&mut self, s: &str)
        ensures
            final(self)@ == append_spec(old(self)@, s@),
    {
        let cs = chars_of(s);
        self.append_text(&cs);
    }

    fn flush_text_to_paragraph(&mut self)
        ensures
            final(self)@ == flush_spec(old(self)@),
    {
        let raw = string_of(self.current_text.as_slice());
        self.current_text = Vec::new();
        let text = format_inline_task_markers(raw.as_str());
        let trimmed = trim_chars(&chars_of(text.as_str()));
        if trimmed.len() == 0 {
            assert(self@ =~= flush_spec(old(self)@));
            return;
        }
        let trimmed_s = string_of(trimmed.as_slice());
        if self.blockquote_stack.len() > 0 {
            self.blockquote_buffer.push(trimmed_s);
            assert(self@ =~= flush_spec(old(self)@));
            return;
        }
        let safe_width = if self.term_width >= 4 { self.term_width - 4 } else { 0 };
        match self.item_marker_pending.take() {
            Some(marker) => {
                let marker_w = visible_width_chars(&marker);
                let mut rest: Vec<char> = Vec::new();
                push_repeat_wide(&mut rest, ' ', marker_w);
                let marker_s = string_of(marker.as_slice());
                let rest_s = string_of(rest.as_slice());
                let wrapped = wrap_ansi(trimmed_s.as_str(), safe_width, marker_s.as_str(), rest_s.as_str());
                append_lines(&mut self.output, &wrapped);
                assert(strings_view(wrapped@) =~= wrap_spec(
                    trimmed@,
                    safe_width as nat,
                    marker@,
                    repeat_char(' ', visible_width_spec(marker@)),
                ));
            },
            None => {
                let (first_indent, rest_indent) = compute_smart_indent(trimmed_s.as_str());
                let mut full_first: Vec<char> = Vec::new();
                push_str(&mut full_first, "  ");
                push_str(&mut full_first, first_indent.as_str());
                let mut full_rest: Vec<char> = Vec::new();
                push_str(&mut full_rest, "  ");
                push_str(&mut full_rest, rest_indent.as_str());
                let ff = string_of(full_first.as_slice());
                let fr = string_of(full_rest.as_slice());
                let wrapped = wrap_ansi(trimmed_s.as_str(), safe_width, ff.as_str(), fr.as_str());
                append_lines(&mut self.output, &wrapped);
                let ghost before = strings_view(self.output@);
                self.output.push(String::new());
                assert(strings_view(self.output@) == before.push(Seq::<char>::empty()));
                assert(strings_view(wrapped@) =~= wrap_spec(
                    trimmed@,
                    safe_width as nat,
                    "  "@ + smart_indent_spec(trimmed@).0,
                    "  "@ + smart_indent_spec(trimmed@).1,
                ));
            },
        }
        assert(self@ =~= flush_spec(old(self)@));
    }

    fn render_heading(&mut self, level: HeadingLevel, text: &Vec<char>)
        ensures
            final(self)@ == heading_spec(old(self)@, level, text@),
    {
        let clean = trim_chars(text);
        let mut line: Vec<char> = Vec::new();
        match level {
            HeadingLevel::H1 => {
                push_str(&mut line, "  \x1b[1;93;48;2;36;20;50m");
                push_str(&mut line, " ▊ ");
                push_all(&mut line, clean.as_slice());
                push_str(&mut line, " ");
            },
            HeadingLevel::H2 => {
                push_str(&mut line, "  \x1b[1;95m▌ ");
                push_all(&mut line, clean.as_slice());
            },
            HeadingLevel::H3 => {
                push_str(&mut line, "  \x1b[1;96m▎ ");
                push_all(&mut line, clean.as_slice());
            },
            HeadingLevel::H4 => {
                push_str(&mut line, "  \x1b[1;92m");
                push_all(&mut line, clean.as_slice());
            },
            HeadingLevel::H5 => {
                push_str(&mut line, "  \x1b[1;38;2;255;159;67m");
                push_all(&mut line, clean.as_slice());
            },
            HeadingLevel::H6 => {
                push_str(&mut line, "  \x1b[1;38;2;84;160;255m");
                push_all(&mut line, clean.as_slice());
            },
        }
        push_str(&mut line, "\x1b[0m");
        assert(line@ =~= heading_line(level, trim_ws(text@)));
        let ghost before = strings_view(self.output@);
        self.output.push(String::new());
        self.output.push(string_of(line.as_slice()));
        self.output.push(String::new());
        assert(strings_view(self.output@) =~= before + seq![
            Seq::<char>::empty(),
            line@,
            Seq::<char>::empty(),
        ]);
        assert(self@ =~= heading_spec(old(self)@, level, text@));
    }
}

fn push_pad_num(out: &mut Vec<char>, n: usize, width: u128)
    ensures
        final(out)@ == old(out)@ + pad_num(n as nat, width as nat),
{
    let digits = decimal_exec(n);
    let len = digits.len() as u128;
    let pad: u128 = if width >= len { width - len } else { 0 };
    push_repeat_wide(out, ' ', pad);
    push_all(out, digits.as_slice());
}

fn code_gutter_exec(num: usize, nd: u128, first: bool) -> (out: Vec<char>)
    requires
        nd < u128::MAX,
    ensures
        out@ == code_gutter(num as nat, nd as nat, first),
{
    let mut out: Vec<char> = Vec::new();
    push_str(&mut out, "  ");
    if first {
        push_str(&mut out, "\x1b[38;2;100;100;125m");
        push_pad_num(&mut out, num, nd + 1);
    } else {
        push_repeat_wide(&mut out, ' ', nd + 1);
    }
    push_str(&mut out, " ");
    push_str(&mut out, "\x1b[38;2;80;80;110m");
    push_str(&mut out, "│");
    push_str(&mut out, "\x1b[0m");
    assert(out@ =~= code_gutter(num as nat, nd as nat, first));
    out
}

fn code_top_exec(lang_trimmed: &Vec<char>, nd: u128, block_width: usize) -> (top: Vec<char>)
    requires
        nd <= usize::MAX,
    ensures
        top@ == code_top_line(lang_trimmed@, nd as nat, block_width as nat),
{
    let mut top: Vec<char> = Vec::new();
    push_str(&mut top, "  ");
    push_str(&mut top, "\x1b[38;2;80;80;110m");
    push_repeat_wide(&mut top, '─', nd + 2);
    if lang_trimmed.len() > 0 {
        push_str(&mut top, "┬──");
        push_str(&mut top, " \x1b[1;38;2;165;94;234m");
        push_all(&mut top, lang_trimmed.as_slice());
        push_str(&mut top, "\x1b[0m");
        push_str(&mut top, "\x1b[38;2;80;80;110m");
        push_str(&mut top, " ");
        push_str(&mut top, "\x1b[38;2;80;80;110m");
        let lang_vis = utf8_len_exec(lang_trimmed) + 2;
        let fill = sat_sub_wide(block_width as u128, (nd + 2) + 3 + lang_vis);
        push_repeat_wide(&mut top, '─', fill);
    } else {
        push_str(&mut top, "┬");
        let fill = sat_sub_wide(block_width as u128, nd + 3);
        push_repeat_wide(&mut top, '─', fill);
    }
    push_str(&mut top, "\x1b[0m");
    assert(top@ =~= code_top_line(lang_trimmed@, nd as nat, block_width as nat));
    top
}

fn sat_sub_wide(a: u128, b: u128) -> (r: u128)
    ensures
        r == sat_sub(a as nat, b as nat),
{
    if a >= b { a - b } else { 0 }
}

impl MarkdownRenderer {
    /// The rendered lines of one highlighted code line.
    fn code_line_exec(line: &String, num: usize, nd: u128, content_width: usize) -> (lines: Vec<String>)
        requires
            nd < u128::MAX,
        ensures
            strings_view(lines@) == code_line_lines(line@, num as nat, nd as nat, content_width as nat),
    {
        let clean = crate::syntax::trim_end_crlf_exec(&chars_of(line.as_str()));
        let mut lines: Vec<String> = Vec::new();
        if clean.len() == 0 {
            let g = code_gutter_exec(num, nd, true);
            lines.push(string_of(g.as_slice()));
            assert(strings_view(lines@) =~= code_line_lines(line@, num as nat, nd as nat, content_width as nat));
            return lines;
        }
        let clean_s = string_of(clean.as_slice());
        let (_first, rest_indent) = compute_smart_indent(clean_s.as_str());
        let cont: String = if rest_indent.as_str().is_empty() { "  ".to_owned() } else { rest_indent };
        let wrapped = wrap_ansi(clean_s.as_str(), content_width, "", cont.as_str());
        let ghost ws = wrap_spec(clean@, content_width as nat, Seq::empty(), cont@);
        proof {
            reveal_strlit("");
            assert(""@ =~= Seq::<char>::empty());
        }
        assert(strings_view(wrapped@) =~= ws);
        let mut w: usize = 0;
        while w < wrapped.len()
            invariant
                w <= wrapped@.len(),
                nd < u128::MAX,
                strings_view(wrapped@) == ws,
                strings_view(lines@) == Seq::new(w as nat, |j: int| code_gutter(num as nat, nd as nat, j == 0) + " "@ + ws[j]),
            decreases wrapped@.len() - w,
        {
            let mut l = code_gutter_exec(num, nd, w == 0);
            push_str(&mut l, " ");
            push_str(&mut l, wrapped[w].as_str());
            assert(wrapped@[w as int]@ == ws[w as int]);
            let ghost before = strings_view(lines@);
            lines.push(string_of(l.as_slice()));
            assert(strings_view(lines@) == before.push(l@));
            w += 1;
            assert(strings_view(lines@) =~= Seq::new(w as nat, |j: int| code_gutter(num as nat, nd as nat, j == 0) + " "@ + ws[j]));
        }
        assert(strings_view(lines@) =~= code_line_lines(line@, num as nat, nd as nat, content_width as nat));
        lines
    }

    fn render_code_block(&mut self, lang: &str, code: &str)
        ensures
            final(self)@ == code_block_spec(old(self)@, lang@, code@),
    {
        let acc = self.code_block_exec(lang, code);
        append_lines(&mut self.output, &acc);
        assert(self@ =~= code_block_spec(old(self)@, lang@, code@));
    }

    fn code_block_exec(&self, lang: &str, code: &str) -> (acc: Vec<String>)
        ensures
            strings_view(acc@) == code_block_lines(self@.term_width, lang@, code@),
    {
        let highlighted = highlight_code(&self.syntax, code, lang);
        let ghost hl = highlight_spec(code@, lang@);
        assert(self@.term_width == self.term_width);
        let block_width = if self.term_width >= 4 { self.term_width - 4 } else { 0 };
        let lang_trimmed = trim_chars(&chars_of(lang));
        let total_lines = highlighted.len();
        let nd_digits = decimal_exec(if total_lines >= 1 { total_lines } else { 1 }).len();
        let nd: u128 = if nd_digits >= 2 { nd_digits as u128 } else { 2 };
        assert(nd <= usize::MAX);
        assert(nd == gutter_digits(hl.len()));
        let mut acc: Vec<String> = Vec::new();
        acc.push(String::new());
        let top = code_top_exec(&lang_trimmed, nd, block_width);
        acc.push(string_of(top.as_slice()));
        let cw_wide = sat_sub_wide(block_width as u128, nd + 4);
        let content_width: usize = if cw_wide >= 20 { cw_wide as usize } else { 20 };
        let ghost body = Seq::new(hl.len(), |i: int| code_line_lines(hl[i], (i + 1) as nat, nd as nat, content_width as nat));
        let ghost head = seq![Seq::<char>::empty(), top@];
        assert(strings_view(acc@) =~= head + body.take(0).flatten());
        let mut idx: usize = 0;
        while idx < highlighted.len()
            invariant
                idx <= highlighted@.len(),
                strings_view(highlighted@) == hl,
                nd <= usize::MAX,
                body == Seq::new(hl.len(), |i: int| code_line_lines(hl[i], (i + 1) as nat, nd as nat, content_width as nat)),
                strings_view(acc@) == head + body.take(idx as int).flatten(),
            decreases highlighted@.len() - idx,
        {
            let piece = Self::code_line_exec(&highlighted[idx], idx + 1, nd, content_width);
            assert(highlighted@[idx as int]@ == hl[idx as int]);
            append_lines(&mut acc, &piece);
            proof {
                body.take(idx as int).lemma_flatten_push(body[idx as int]);
                assert(body.take(idx + 1) == body.take(idx as int).push(body[idx as int]));
            }
            idx += 1;
        }
        assert(body.take(hl.len() as int) == body);
        let mut bottom: Vec<char> = Vec::new();
        push_str(&mut bottom, "  ");
        push_str(&mut bottom, "\x1b[38;2;80;80;110m");
        push_repeat_wide(&mut bottom, '─', nd + 2);
        push_str(&mut bottom, "┴");
        let fill = sat_sub_wide(block_width as u128, nd + 3);
        push_repeat_wide(&mut bottom, '─', fill);
        push_str(&mut bottom, "\x1b[0m");
        let ghost mid = strings_view(acc@);
        acc.push(string_of(bottom.as_slice()));
        acc.push(String::new());
        assert(strings_view(acc@) =~= mid + seq![bottom@, Seq::<char>::empty()]);
        acc
    }
}

fn alert_style_exec(kind: AlertKind) -> (r: (&'static str, &'static str))
    ensures
        r.0@ == alert_style(kind).0,
        r.1@ == alert_style(kind).1,
{
    match kind {
        AlertKind::Note => ("\x1b[1;38;2;47;129;247m", "ℹ NOTE"),
        AlertKind::Tip => ("\x1b[1;38;2;46;213;115m", "💡 TIP"),
        AlertKind::Important => ("\x1b[1;38;2;165;94;234m", "🟣 IMPORTANT"),
        AlertKind::Warning => ("\x1b[1;38;2;255;165;2m", "⚠️ WARNING"),
        AlertKind::Caution => ("\x1b[1;38;2;255;71;87m", "🛑 CAUTION"),
    }
}

fn alert_body_exec(blocks: &Vec<String>, color: &str, content_width: usize) -> (out: Vec<String>)
    ensures
        strings_view(out@) == alert_body(strings_view(blocks@), color@, content_width as nat),
{
    let ghost bv = strings_view(blocks@);
    let ghost parts = Seq::new(
        bv.len(),
        |b: int|
            {
                let w = wrap_spec(bv[b], content_width as nat, Seq::empty(), Seq::empty());
                Seq::new(w.len(), |j: int| alert_body_line(color@, w[j], content_width as nat))
            },
    );
    let mut out: Vec<String> = Vec::new();
    let mut b: usize = 0;
    assert(strings_view(out@) =~= parts.take(0).flatten());
    proof {
        reveal_strlit("");
        assert(""@ =~= Seq::<char>::empty());
    }
    while b < blocks.len()
        invariant
            b <= blocks@.len(),
            bv == strings_view(blocks@),
            ""@ == Seq::<char>::empty(),
            parts == Seq::new(
                bv.len(),
                |b: int|
                    {
                        let w = wrap_spec(bv[b], content_width as nat, Seq::empty(), Seq::empty());
                        Seq::new(w.len(), |j: int| alert_body_line(color@, w[j], content_width as nat))
                    },
            ),
            strings_view(out@) == parts.take(b as int).flatten(),
        decreases blocks@.len() - b,
    {
        assert(blocks@[b as int]@ == bv[b as int]);
        let wrapped = wrap_ansi(blocks[b].as_str(), content_width, "", "");
        let ghost w = wrap_spec(bv[b as int], content_width as nat, Seq::empty(), Seq::empty());
        assert(strings_view(wrapped@) =~= w);
        let mut piece: Vec<String> = Vec::new();
        let mut j: usize = 0;
        while j < wrapped.len()
            invariant
                j <= wrapped@.len(),
                strings_view(wrapped@) == w,
                strings_view(piece@) == Seq::new(j as nat, |k: int| alert_body_line(color@, w[k], content_width as nat)),
            decreases wrapped@.len() - j,
        {
            let wl = chars_of(wrapped[j].as_str());
            let vis = visible_width_chars(&wl);
            let pad = if (content_width as u128) >= vis { content_width as u128 - vis } else { 0 };
            let mut line: Vec<char> = Vec::new();
            push_str(&mut line, "  ");
            push_str(&mut line, color);
            push_str(&mut line, "\x1b[1m│\x1b[0m  ");
            push_all(&mut line, wl.as_slice());
            push_repeat_wide(&mut line, ' ', pad);
            push_str(&mut line, "  ");
            push_str(&mut line, color);
            push_str(&mut line, "\x1b[1m│");
            push_str(&mut line, "\x1b[0m");
            assert(wrapped@[j as int]@ == w[j as int]);
            assert(line@ =~= alert_body_line(color@, w[j as int], content_width as nat));
            let ghost before = strings_view(piece@);
            piece.push(string_of(line.as_slice()));
            assert(strings_view(piece@) == before.push(line@));
            j += 1;
            assert(strings_view(piece@) =~= Seq::new(j as nat, |k: int| alert_body_line(color@, w[k], content_width as nat)));
        }
        assert(strings_view(piece@) =~= parts[b as int]);
        append_lines(&mut out, &piece);
        proof {
            parts.take(b as int).lemma_flatten_push(parts[b as int]);
            assert(parts.take(b + 1) == parts.take(b as int).push(parts[b as int]));
        }
        b += 1;
    }
    assert(parts.take(bv.len() as int) == parts);
    out
}

fn quote_body_exec(blocks: &Vec<String>, width: usize) -> (out: Vec<String>)
    ensures
        strings_view(out@) == quote_body(strings_view(blocks@), width as nat),
{
    let ghost bv = strings_view(blocks@);
    let inner = if width >= 6 { width - 6 } else { 0 };
    let ghost parts = Seq::new(
        bv.len(),
        |b: int|
            {
                let w = wrap_spec(bv[b], sat_sub(width as nat, 6), quote_bar(), quote_bar());
                Seq::new(w.len(), |j: int| w[j] + reset())
            },
    );
    let bar = "  \x1b[38;2;253;203;110m│ \x1b[0m\x1b[3m";
    let mut out: Vec<String> = Vec::new();
    let mut b: usize = 0;
    assert(strings_view(out@) =~= parts.take(0).flatten());
    while b < blocks.len()
        invariant
            b <= blocks@.len(),
            bv == strings_view(blocks@),
            inner == sat_sub(width as nat, 6),
            bar@ == quote_bar(),
            parts == Seq::new(
                bv.len(),
                |b: int|
                    {
                        let w = wrap_spec(bv[b], sat_sub(width as nat, 6), quote_bar(), quote_bar());
                        Seq::new(w.len(), |j: int| w[j] + reset())
                    },
            ),
            strings_view(out@) == parts.take(b as int).flatten(),
        decreases blocks@.len() - b,
    {
        assert(blocks@[b as int]@ == bv[b as int]);
        let wrapped = wrap_ansi(blocks[b].as_str(), inner, bar, bar);
        let ghost w = wrap_spec(bv[b as int], sat_sub(width as nat, 6), quote_bar(), quote_bar());
        assert(strings_view(wrapped@) =~= w);
        let mut piece: Vec<String> = Vec::new();
        let mut j: usize = 0;
        while j < wrapped.len()
            invariant
                j <= wrapped@.len(),
                strings_view(wrapped@) == w,
                strings_view(piece@) == Seq::new(j as nat, |k: int| w[k] + reset()),
            decreases wrapped@.len() - j,
        {
            let mut line: Vec<char> = Vec::new();
            push_str(&mut line, wrapped[j].as_str());
            push_str(&mut line, "\x1b[0m");
            assert(wrapped@[j as int]@ == w[j as int]);
            let ghost before = strings_view(piece@);
            piece.push(string_of(line.as_slice()));
            assert(strings_view(piece@) == before.push(line@));
            j += 1;
            assert(strings_view(piece@) =~= Seq::new(j as nat, |k: int| w[k] + reset()));
        }
        assert(strings_view(piece@) =~= parts[b as int]);
        append_lines(&mut out, &piece);
        proof {
            parts.take(b as int).lemma_flatten_push(parts[b as int]);
            assert(parts.take(b + 1) == parts.take(b as int).push(parts[b as int]));
        }
        b += 1;
    }
    assert(parts.take(bv.len() as int) == parts);
    out
}

fn quote_lines_exec(term_width: usize, ctx: Option<AlertKind>, blocks: &Vec<String>) -> (out: Vec<String>)
    ensures
        strings_view(out@) == quote_lines(term_width as nat, ctx, strings_view(blocks@)),
{
    let mut out: Vec<String> = Vec::new();
    out.push(String::new());
    match ctx {
        Some(kind) => {
            let (color, title) = alert_style_exec(kind);
            let box_width: usize = if term_width >= 4 { term_width - 4 } else { 0 };
            let title_vis = visible_width_chars(&chars_of(title));
            let fill = sat_sub_wide(box_width as u128, 6 + title_vis);
            let mut top: Vec<char> = Vec::new();
            push_str(&mut top, "  ");
            push_str(&mut top, color);
            push_str(&mut top, "\x1b[1m╭─ ");
            push_str(&mut top, title);
            push_str(&mut top, " ─");
            push_repeat_wide(&mut top, '─', fill);
            push_str(&mut top, "╮");
            push_str(&mut top, "\x1b[0m");
            out.push(string_of(top.as_slice()));
            let body = alert_body_exec(blocks, color, if box_width >= 6 { box_width - 6 } else { 0 });
            append_lines(&mut out, &body);
            let mut bottom: Vec<char> = Vec::new();
            push_str(&mut bottom, "  ");
            push_str(&mut bottom, color);
            push_str(&mut bottom, "\x1b[1m╰");
            push_repeat(&mut bottom, '─', if box_width >= 2 { box_width - 2 } else { 0 });
            push_str(&mut bottom, "╯");
            push_str(&mut bottom, "\x1b[0m");
            let ghost mid = strings_view(out@);
            out.push(string_of(bottom.as_slice()));
            out.push(String::new());
            assert(strings_view(out@) =~= mid + seq![bottom@, Seq::<char>::empty()]);
            assert(strings_view(out@) =~= quote_lines(term_width as nat, ctx, strings_view(blocks@)));
        },
        None => {
            let body = quote_body_exec(blocks, term_width);
            append_lines(&mut out, &body);
            let ghost mid = strings_view(out@);
            out.push(String::new());
            assert(strings_view(out@) =~= mid.push(Seq::<char>::empty()));
            assert(strings_view(out@) =~= quote_lines(term_width as nat, ctx, strings_view(blocks@)));
        },
    }
    out
}

impl MarkdownRenderer {
    fn render_blockquote(&mut self, ctx: Option<AlertKind>)
        ensures
            final(self)@ == blockquote_spec(old(self)@, ctx),
    {
        let mut lines: Vec<String> = Vec::new();
        std::mem::swap(&mut lines, &mut self.blockquote_buffer);
        if lines.len() == 0 {
            assert(self@ =~= blockquote_spec(old(self)@, ctx));
            return;
        }
        let drawn = quote_lines_exec(self.term_width, ctx, &lines);
        append_lines(&mut self.output, &drawn);
        assert(self@ =~= blockquote_spec(old(self)@, ctx));
    }
}

fn table_lines_exec(t: &TableData, width: usize) -> (out: Vec<String>)
    ensures
        strings_view(out@) == table_lines((t.alignments@, t.headers_view(), t.rows_view()), width as nat),
{
    let mut out: Vec<String> = Vec::new();
    out.push(String::new());
    let ghost tv = (t.alignments@, t.headers_view(), t.rows_view());
    let ghost drawn = if table_fits(tv.0, tv.1, tv.2) {
        let ls = render_table_spec(tv.0, tv.1, tv.2, sat_sub(width as nat, 4));
        Seq::new(ls.len(), |i: int| "  "@ + ls[i])
    } else {
        Seq::<Seq<char>>::empty()
    };
    if t.fits() {
        let lines = t.render(if width >= 4 { width - 4 } else { 0 });
        let ghost ls = render_table_spec(tv.0, tv.1, tv.2, sat_sub(width as nat, 4));
        let mut k: usize = 0;
        while k < lines.len()
            invariant
                k <= lines@.len(),
                strings_view(lines@) == ls,
                strings_view(out@) == seq![Seq::<char>::empty()] + Seq::new(k as nat, |i: int| "  "@ + ls[i]),
            decreases lines@.len() - k,
        {
            let mut l: Vec<char> = Vec::new();
            push_str(&mut l, "  ");
            push_str(&mut l, lines[k].as_str());
            assert(lines@[k as int]@ == ls[k as int]);
            let ghost before = strings_view(out@);
            out.push(string_of(l.as_slice()));
            assert(strings_view(out@) == before.push(l@));
            k += 1;
            assert(strings_view(out@) =~= seq![Seq::<char>::empty()] + Seq::new(k as nat, |i: int| "  "@ + ls[i]));
        }
        assert(Seq::new(lines@.len() as nat, |i: int| "  "@ + ls[i]) =~= drawn);
    } else {
        assert(strings_view(out@) =~= seq![Seq::<char>::empty()] + drawn);
    }
    let ghost mid = strings_view(out@);
    out.push(String::new());
    assert(strings_view(out@) == mid.push(Seq::<char>::empty()));
    assert(strings_view(out@) =~= table_lines(tv, width as nat));
    out
}

impl MarkdownRenderer {
    fn on_end_heading(&mut self, level: HeadingLevel)
        ensures
            final(self)@ == step_spec(old(self)@, MdEvent::EndHeading(level)),
    {
        let mut h_text: Vec<char> = Vec::new();
        std::mem::swap(&mut h_text, &mut self.current_text);
        self.render_heading(level, &h_text);
    }

    fn on_rule(&mut self)
        ensures
            final(self)@ == step_spec(old(self)@, MdEvent::Rule),
    {
        self.flush_text_to_paragraph();
        let mut line: Vec<char> = Vec::new();
        push_str(&mut line, "  \x1b[1;38;2;165;94;234m");
        push_repeat(&mut line, '─', if self.term_width >= 4 { self.term_width - 4 } else { 0 });
        push_str(&mut line, "\x1b[0m");
        let ghost before = strings_view(self.output@);
        self.output.push(String::new());
        self.output.push(string_of(line.as_slice()));
        self.output.push(String::new());
        assert(strings_view(self.output@) =~= before + seq![Seq::<char>::empty(), line@, Seq::<char>::empty()]);
        assert(self@ =~= step_spec(old(self)@, MdEvent::Rule));
    }

    fn on_start_code_block(&mut self, lang: String)
        ensures
            final(self)@ == step_spec(old(self)@, MdEvent::StartCodeBlock(lang)),
    {
        self.flush_text_to_paragraph();
        self.code_block = Some((lang, Vec::new()));
        assert(self@ =~= step_spec(old(self)@, MdEvent::StartCodeBlock(lang)));
    }

    fn on_end_code_block(&mut self)
        ensures
            final(self)@ == step_spec(old(self)@, MdEvent::EndCodeBlock),
    {
        let mut taken: Option<(String, Vec<char>)> = None;
        std::mem::swap(&mut taken, &mut self.code_block);
        match taken {
            Some((lang, code)) => {
                let code_s = string_of(code.as_slice());
                self.render_code_block(lang.as_str(), code_s.as_str());
            },
            None => {},
        }
        assert(self@ =~= step_spec(old(self)@, MdEvent::EndCodeBlock));
    }

    fn on_start_block_quote(&mut self, kind: Option<AlertKind>)
        ensures
            final(self)@ == step_spec(old(self)@, MdEvent::StartBlockQuote(kind)),
    {
        self.flush_text_to_paragraph();
        self.blockquote_stack.push(kind);
        assert(self@ =~= step_spec(old(self)@, MdEvent::StartBlockQuote(kind)));
    }

    fn on_end_block_quote(&mut self)
        ensures
            final(self)@ == step_spec(old(self)@, MdEvent::EndBlockQuote),
    {
        self.flush_text_to_paragraph();
        let ghost f = self@;
        match self.blockquote_stack.pop() {
            Some(ctx) => {
                assert(self@ =~= RenderState { quotes: f.quotes.drop_last(), ..f });
                self.render_blockquote(ctx);
            },
            None => {},
        }
        assert(self@ =~= step_spec(old(self)@, MdEvent::EndBlockQuote));
    }

    fn on_start_table(&mut self, alignments: Vec<Align>)
        ensures
            final(self)@ == step_spec(old(self)@, MdEvent::StartTable(alignments)),
    {
        self.flush_text_to_paragraph();
        let t = TableData::new(alignments);
        assert(t.headers_view() =~= Seq::<Seq<char>>::empty());
        assert(t.rows_view() =~= Seq::<Seq<Seq<char>>>::empty());
        self.table_data = Some(t);
        assert(self@ =~= step_spec(old(self)@, MdEvent::StartTable(alignments)));
    }

    fn on_end_table(&mut self)
        ensures
            final(self)@ == step_spec(old(self)@, MdEvent::EndTable),
    {
        let mut taken: Option<TableData> = None;
        std::mem::swap(&mut taken, &mut self.table_data);
        match taken {
            Some(t) => {
                let lines = table_lines_exec(&t, self.term_width);
                append_lines(&mut self.output, &lines);
            },
            None => {},
        }
        assert(self@ =~= step_spec(old(self)@, MdEvent::EndTable));
    }

    fn on_end_table_head(&mut self)
        ensures
            final(self)@ == step_spec(old(self)@, MdEvent::EndTableHead),
    {
        self.in_table_head = false;
        let mut taken: Option<TableData> = None;
        std::mem::swap(&mut taken, &mut self.table_data);
        match taken {
            Some(mut t) => {
                let mut row: Vec<String> = Vec::new();
                std::mem::swap(&mut row, &mut self.current_table_row);
                t.headers = row;
                self.table_data = Some(t);
            },
            None => {},
        }
        assert(self@ =~= step_spec(old(self)@, MdEvent::EndTableHead));
    }

    fn on_end_table_row(&mut self)
        ensures
            final(self)@ == step_spec(old(self)@, MdEvent::EndTableRow),
    {
        if !self.in_table_head {
            let mut taken: Option<TableData> = None;
            std::mem::swap(&mut taken, &mut self.table_data);
            match taken {
                Some(mut t) => {
                    let mut row: Vec<String> = Vec::new();
                    std::mem::swap(&mut row, &mut self.current_table_row);
                    let ghost before = t.rows_view();
                    let ghost rv = strings_view(row@);
                    t.rows.push(row);
                    assert(t.rows_view() =~= before.push(rv));
                    self.table_data = Some(t);
                },
                None => {},
            }
        }
        assert(self@ =~= step_spec(old(self)@, MdEvent::EndTableRow));
    }

    fn on_end_table_cell(&mut self)
        ensures
            final(self)@ == step_spec(old(self)@, MdEvent::EndTableCell),
    {
        let mut cell: Vec<char> = Vec::new();
        std::mem::swap(&mut cell, &mut self.current_cell);
        let ghost before = strings_view(self.current_table_row@);
        self.current_table_row.push(string_of(cell.as_slice()));
        assert(strings_view(self.current_table_row@) == before.push(cell@));
        assert(self@ =~= step_spec(old(self)@, MdEvent::EndTableCell));
    }

    fn on_start_list(&mut self, start: Option<u64>)
        ensures
            final(self)@ == step_spec(old(self)@, MdEvent::StartList(start)),
    {
        self.flush_text_to_paragraph();
        let ctx = match start {
            Some(num) => ListContext { is_ordered: true, current_index: num as u128 },
            None => ListContext { is_ordered: false, current_index: 1 },
        };
        let ghost before = self.list_stack@;
        self.list_stack.push(ctx);
        assert(lists_view(self.list_stack@) =~= lists_view(before).push((ctx.is_ordered, ctx.current_index as nat)));
        assert(self@ =~= step_spec(old(self)@, MdEvent::StartList(start)));
    }

    fn on_end_list(&mut self)
        ensures
            final(self)@ == step_spec(old(self)@, MdEvent::EndList),
    {
        self.flush_text_to_paragraph();
        let ghost before = self.list_stack@;
        let _ = self.list_stack.pop();
        assert(lists_view(self.list_stack@) =~= if before.len() > 0 {
            lists_view(before).drop_last()
        } else {
            lists_view(before)
        });
        if self.list_stack.len() == 0 {
            let ghost o = strings_view(self.output@);
            self.output.push(String::new());
            assert(strings_view(self.output@) == o.push(Seq::<char>::empty()));
        }
        assert(self@ =~= step_spec(old(self)@, MdEvent::EndList));
    }

    fn on_start_item(&mut self)
        requires
            counters_below(old(self)@, (u128::MAX - 1) as nat),
        ensures
            final(self)@ == step_spec(old(self)@, MdEvent::StartItem),
    {
        self.flush_text_to_paragraph();
        let n = self.list_stack.len();
        if n > 0 {
            let mut marker: Vec<char> = Vec::new();
            push_str(&mut marker, "  ");
            push_repeat_wide(&mut marker, ' ', if n >= 1 { 2 * ((n - 1) as u128) } else { 0 });
            let ghost before = self.list_stack@;
            let is_ordered = self.list_stack[n - 1].is_ordered;
            let idx = self.list_stack[n - 1].current_index;
            if is_ordered {
                assert(lists_view(before)[n - 1] == (is_ordered, idx as nat));
                push_str(&mut marker, "\x1b[38;2;72;219;251m");
                let digits = decimal_u128(idx);
                push_all(&mut marker, digits.as_slice());
                push_str(&mut marker, ".\x1b[0m ");
                self.list_stack.set(n - 1, ListContext { is_ordered: true, current_index: idx + 1 });
                assert(lists_view(self.list_stack@) =~= lists_view(before).update(n - 1, (true, (idx + 1) as nat)));
            } else {
                push_str(&mut marker, "\x1b[38;2;254;202;87m•\x1b[0m ");
            }
            self.item_marker_pending = Some(marker);
        }
        assert(self@ =~= step_spec(old(self)@, MdEvent::StartItem));
    }

    fn on_task_marker(&mut self, checked: bool)
        ensures
            final(self)@ == step_spec(old(self)@, MdEvent::TaskListMarker(checked)),
    {
        let n = self.list_stack.len();
        let mut marker: Vec<char> = Vec::new();
        push_str(&mut marker, "  ");
        push_repeat_wide(&mut marker, ' ', if n >= 1 { 2 * ((n - 1) as u128) } else { 0 });
        if checked {
            push_str(&mut marker, "\x1b[1;32m✔\x1b[0m ");
        } else {
            push_str(&mut marker, "\x1b[38;2;130;130;130m☐\x1b[0m ");
        }
        self.item_marker_pending = Some(marker);
        assert(self@ =~= step_spec(old(self)@, MdEvent::TaskListMarker(checked)));
    }

    fn on_start_link(&mut self, url: String)
        ensures
            final(self)@ == step_spec(old(self)@, MdEvent::StartLink(url)),
    {
        self.in_link = true;
        let mut open: Vec<char> = Vec::new();
        push_str(&mut open, "\x1b]8;;");
        push_str(&mut open, url.as_str());
        push_str(&mut open, "\x1b\\\x1b[4;38;2;0;210;211m");
        self.append_text(&open);
        assert(self@ =~= step_spec(old(self)@, MdEvent::StartLink(url)));
    }

    fn on_end_link(&mut self)
        ensures
            final(self)@ == step_spec(old(self)@, MdEvent::EndLink),
    {
        self.append_str("\x1b[0m\x1b]8;;\x1b\\");
        self.in_link = false;
        assert(self@ =~= step_spec(old(self)@, MdEvent::EndLink));
    }

    fn on_code(&mut self, code: String)
        ensures
            final(self)@ == step_spec(old(self)@, MdEvent::Code(code)),
    {
        let mut formatted: Vec<char> = Vec::new();
        push_str(&mut formatted, "\x1b[38;2;255;107;107m");
        push_str(&mut formatted, code.as_str());
        push_str(&mut formatted, "\x1b[0m");
        if self.in_link {
            push_str(&mut formatted, "\x1b[4;38;2;0;210;211m");
        }
        self.append_text(&formatted);
        assert(self@ =~= step_spec(old(self)@, MdEvent::Code(code)));
    }

    fn on_text(&mut self, text: String)
        ensures
            final(self)@ == step_spec(old(self)@, MdEvent::Text(text)),
    {
        let mut taken: Option<(String, Vec<char>)> = None;
        std::mem::swap(&mut taken, &mut self.code_block);
        match taken {
            Some((lang, mut buf)) => {
                push_str(&mut buf, text.as_str());
                self.code_block = Some((lang, buf));
            },
            None => {
                self.append_str(text.as_str());
            },
        }
        assert(self@ =~= step_spec(old(self)@, MdEvent::Text(text)));
    }

    fn on_break(&mut self, hard: bool)
        ensures
            hard ==> final(self)@ == step_spec(old(self)@, MdEvent::HardBreak),
            !hard ==> final(self)@ == step_spec(old(self)@, MdEvent::SoftBreak),
    {
        let mut taken: Option<(String, Vec<char>)> = None;
        std::mem::swap(&mut taken, &mut self.code_block);
        match taken {
            Some((lang, mut buf)) => {
                buf.push('\n');
                self.code_block = Some((lang, buf));
            },
            None => {
                if hard {
                    self.append_str("\n");
                } else {
                    self.append_str(" ");
                }
            },
        }
        assert(hard ==> self@ =~= step_spec(old(self)@, MdEvent::HardBreak));
        assert(!hard ==> self@ =~= step_spec(old(self)@, MdEvent::SoftBreak));
    }
}

/// The decimal digits of a wide number.
fn decimal_u128(n: u128) -> (out: Vec<char>)
    ensures
        out@ == decimal(n as nat),
    decreases n,
{
    let mut out: Vec<char> = Vec::new();
    if n < 10 {
        out.push(digit_u128(n));
        assert(out@ == seq![crate::text::digit_char(n as nat)]);
        out
    } else {
        let mut out = decimal_u128(n / 10);
        out.push(digit_u128(n % 10));
        out
    }
}

fn digit_u128(d: u128) -> (c: char)
    requires
        d < 10,
    ensures
        c == crate::text::digit_char(d as nat),
{
    if d == 0 { '0' }
    else if d == 1 { '1' }
    else if d == 2 { '2' }
    else if d == 3 { '3' }
    else if d == 4 { '4' }
    else if d == 5 { '5' }
    else if d == 6 { '6' }
    else if d == 7 { '7' }
    else if d == 8 { '8' }
    else { '9' }
}

proof fn lemma_flush_keeps_lists(st: RenderState)
    ensures
        flush_spec(st).lists == st.lists,
{
}

/// Each event raises an open list's counter by at most one.
proof fn lemma_step_counters(st: RenderState, ev: MdEvent, b: nat)
    requires
        counters_below(st, b),
        b >= u64::MAX,
    ensures
        counters_below(step_spec(st, ev), b + 1),
{
    lemma_flush_keeps_lists(st);
    let f = flush_spec(st);
    match ev {
        MdEvent::StartList(start) => {
            let n = step_spec(st, ev).lists;
            assert forall|i: int| 0 <= i < n.len() implies #[trigger] n[i].1 <= b + 1 by {
                if i < st.lists.len() {
                    assert(n[i] == st.lists[i]);
                }
            }
        },
        MdEvent::StartItem => {
            let n = step_spec(st, ev).lists;
            assert forall|i: int| 0 <= i < n.len() implies #[trigger] n[i].1 <= b + 1 by {
                assert(f.lists[i].1 <= b);
            }
        },
        MdEvent::EndList => {
            let n = step_spec(st, ev).lists;
            assert forall|i: int| 0 <= i < n.len() implies #[trigger] n[i].1 <= b + 1 by {
                assert(n[i] == st.lists[i]);
            }
        },
        MdEvent::EndBlockQuote => {},
        MdEvent::EndCodeBlock => {},
        _ => {},
    }
}

impl MarkdownRenderer {
    /// Applies one event to the renderer.
    pub fn handle_event(&mut self, event: MdEvent)
        requires
            counters_below(old(self)@, (u128::MAX - 1) as nat),
        ensures
            final(self)@ == step_spec(old(self)@, event),
    {
        match event {
            MdEvent::StartHeading => {
                self.flush_text_to_paragraph();
            },
            MdEvent::EndHeading(level) => self.on_end_heading(level),
            MdEvent::Rule => self.on_rule(),
            MdEvent::StartCodeBlock(lang) => self.on_start_code_block(lang),
            MdEvent::EndCodeBlock => self.on_end_code_block(),
            MdEvent::StartBlockQuote(kind) => self.on_start_block_quote(kind),
            MdEvent::EndBlockQuote => self.on_end_block_quote(),
            MdEvent::StartTable(al) => self.on_start_table(al),
            MdEvent::EndTable => self.on_end_table(),
            MdEvent::StartTableHead => {
                self.in_table_head = true;
                self.current_table_row = Vec::new();
                assert(self@ =~= step_spec(old(self)@, MdEvent::StartTableHead));
            },
            MdEvent::EndTableHead => self.on_end_table_head(),
            MdEvent::StartTableRow => {
                self.current_table_row = Vec::new();
                assert(self@ =~= step_spec(old(self)@, MdEvent::StartTableRow));
            },
            MdEvent::EndTableRow => self.on_end_table_row(),
            MdEvent::StartTableCell => {
                self.current_cell = Vec::new();
                assert(self@ =~= step_spec(old(self)@, MdEvent::StartTableCell));
            },
            MdEvent::EndTableCell => self.on_end_table_cell(),
            MdEvent::StartList(start) => self.on_start_list(start),
            MdEvent::EndList => self.on_end_list(),
            MdEvent::StartItem => self.on_start_item(),
            MdEvent::EndItem => {
                self.flush_text_to_paragraph();
                self.item_marker_pending = None;
                assert(self@ =~= step_spec(old(self)@, MdEvent::EndItem));
            },
            MdEvent::TaskListMarker(checked) => self.on_task_marker(checked),
            MdEvent::StartLink(url) => self.on_start_link(url),
            MdEvent::EndLink => self.on_end_link(),
            MdEvent::StartParagraph => self.flush_text_to_paragraph(),
            MdEvent::EndParagraph => self.flush_text_to_paragraph(),
            MdEvent::StartEmphasis => self.append_str("\x1b[3m"),
            MdEvent::EndEmphasis => self.append_str("\x1b[23m"),
            MdEvent::StartStrong => self.append_str("\x1b[1m"),
            MdEvent::EndStrong => self.append_str("\x1b[22m"),
            MdEvent::StartStrikethrough => self.append_str("\x1b[9m"),
            MdEvent::EndStrikethrough => self.append_str("\x1b[29m"),
            MdEvent::Code(code) => self.on_code(code),
            MdEvent::Text(text) => self.on_text(text),
            MdEvent::SoftBreak => self.on_break(false),
            MdEvent::HardBreak => self.on_break(true),
            MdEvent::Other => {},
        }
    }

    /// Renders a document given as its event stream: the events applied in
    /// order, the open text flushed, blank runs collapsed, lines joined.
    pub fn render_events(self, events: Vec<MdEvent>) -> (res: String)
        requires
            counters_below(self@, u64::MAX as nat),
        ensures
            res@ == finish_spec(run_spec(self@, events@)),
    {
        let mut r = self;
        let ghost st0 = r@;
        let ghost evs = events@;
        let mut events = events;
        let n = events.len();
        // consume events front to back
        let mut rev: Vec<MdEvent> = Vec::new();
        while events.len() > 0
            invariant
                evs.len() == n,
                rev@.len() + events@.len() == n,
                events@ == evs.take(events@.len() as int),
                forall|i: int| 0 <= i < rev@.len() ==> #[trigger] rev@[i] == evs[n - 1 - i],
            decreases events@.len(),
        {
            let e = events.pop().unwrap();
            rev.push(e);
        }
        let mut k: usize = 0;
        assert(evs.take(0) =~= Seq::<MdEvent>::empty());
        while rev.len() > 0
            invariant
                evs.len() == n,
                k + rev@.len() == n,
                forall|i: int| 0 <= i < rev@.len() ==> #[trigger] rev@[i] == evs[n - 1 - i],
                r@ == run_spec(st0, evs.take(k as int)),
                counters_below(r@, (u64::MAX + k) as nat),
            decreases rev@.len(),
        {
            let e = rev.pop().unwrap();
            assert(e == evs[k as int]);
            proof {
                lemma_step_counters(r@, e, (u64::MAX + k) as nat);
                assert(evs.take(k + 1).drop_last() == evs.take(k as int));
            }
            r.handle_event(e);
            k += 1;
        }
        assert(evs.take(n as int) == evs);
        r.flush_text_to_paragraph();
        let cleaned = collapse_blank_lines(r.output);
        let mut lines: Vec<Vec<char>> = Vec::new();
        let mut i: usize = 0;
        while i < cleaned.len()
            invariant
                i <= cleaned@.len(),
                vecs_view(lines@) == strings_view(cleaned@).take(i as int),
            decreases cleaned@.len() - i,
        {
            let ghost before = vecs_view(lines@);
            lines.push(chars_of(cleaned[i].as_str()));
            assert(vecs_view(lines@) == before.push(cleaned@[i as int]@));
            i += 1;
            assert(strings_view(cleaned@).take(i as int) =~= strings_view(cleaned@).take(i - 1).push(cleaned@[i - 1]@));
        }
        assert(strings_view(cleaned@).take(cleaned@.len() as int) == strings_view(cleaned@));
        let joined = join_lines_exec(&lines);
        string_of(joined.as_slice())
    }

    /// Renders a Markdown document as terminal text.
    pub fn render(self, markdown: &str) -> (res: String)
        requires
            counters_below(self@, u64::MAX as nat),
        ensures
            res@ == finish_spec(run_spec(self@, markdown_events(markdown@))),
    {
        let events = parse_markdown(markdown);
        self.render_events(events)
    }
}

} // verus!
