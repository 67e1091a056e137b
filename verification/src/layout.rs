//! Reading-column layout, centering and the framed header and footer.

use vstd::prelude::*;
use crate::text::{
    chars_of, join_lines, join_lines_exec, lemma_join_split, lemma_split_join, lemma_split_pieces_plain,
    lemma_split_lines_nonempty, no_newline, parse_usize, parse_usize_spec, push_all,
    push_repeat, push_str, repeat_char, split_lines, split_lines_exec, string_of, vecs_view,
};

verus! {

/// Widest reading column used when no width is requested.
pub const DEFAULT_MAX_WIDTH: usize = 100;

/// Width of the reading column and the left padding that centers it.
pub struct Layout {
    pub content_width: usize,
    pub left_pad: usize,
}

pub open spec fn min_nat(a: nat, b: nat) -> nat {
    if a <= b { a } else { b }
}

pub open spec fn max_nat(a: nat, b: nat) -> nat {
    if a >= b { a } else { b }
}

/// `a - b`, or zero when `b` exceeds `a`.
pub open spec fn sat_sub(a: nat, b: nat) -> nat {
    if a >= b { (a - b) as nat } else { 0 }
}

/// Column width for a terminal of `term` columns: the requested width (0
/// meaning the whole terminal) at most the terminal and at least 20, or by
/// default the terminal clamped to 40..=100.
pub open spec fn content_width_spec(custom: Option<usize>, term: nat) -> nat {
    match custom {
        Some(c) => if c == 0 {
            max_nat(term, 20)
        } else {
            max_nat(min_nat(c as nat, term), 20)
        },
        None => if term < 40 {
            40
        } else if term > DEFAULT_MAX_WIDTH {
            DEFAULT_MAX_WIDTH as nat
        } else {
            term
        },
    }
}

/// Left padding: half the unused columns on a terminal, none otherwise or
/// when the whole terminal width was requested.
pub open spec fn left_pad_spec(custom: Option<usize>, term: nat, is_term: bool) -> nat {
    if custom == Some(0usize) || !is_term {
        0
    } else {
        sat_sub(term, content_width_spec(custom, term)) / 2
    }
}

/// Computes the reading column for a terminal `term_width` columns wide.
/// `is_term` tells whether output goes to a terminal (only then is the
/// column centered).
pub fn compute_layout(custom_width: Option<usize>, term_width: usize, is_term: bool) -> (l: Layout)
    ensures
        l.content_width == content_width_spec(custom_width, term_width as nat),
        l.left_pad == left_pad_spec(custom_width, term_width as nat, is_term),
{
    let actual_term_width = term_width;
    if let Some(custom) = custom_width {
        if custom == 0 {
            return Layout {
                content_width: if actual_term_width >= 20 { actual_term_width } else { 20 },
                left_pad: 0,
            };
        }
        let capped = if custom <= actual_term_width { custom } else { actual_term_width };
        let content_width = if capped >= 20 { capped } else { 20 };
        let left_pad = if is_term {
            (if actual_term_width >= content_width { actual_term_width - content_width } else { 0 }) / 2
        } else {
            0
        };
        return Layout { content_width, left_pad };
    }
    let content_width = if actual_term_width < 40 {
        40
    } else if actual_term_width > DEFAULT_MAX_WIDTH {
        DEFAULT_MAX_WIDTH
    } else {
        actual_term_width
    };
    let left_pad = if is_term {
        (if actual_term_width >= content_width { actual_term_width - content_width } else { 0 }) / 2
    } else {
        0
    };
    Layout { content_width, left_pad }
}

/// The terminal width to lay out for: an explicit override, else the
/// detected terminal size when positive, else a positive `COLUMNS` value,
/// else 80.
pub open spec fn term_width_spec(
    term_cols_override: Option<usize>,
    detected: Option<u16>,
    columns: Option<Seq<char>>,
) -> nat {
    match term_cols_override {
        Some(c) => c as nat,
        None => match detected {
            Some(w) if w > 0 => w as nat,
            _ => match columns {
                Some(v) => match parse_usize_spec(v) {
                    Some(n) if n > 0 => n,
                    _ => 80,
                },
                None => 80,
            },
        },
    }
}

/// Chooses the terminal width from an override, the detected terminal
/// size and the `COLUMNS` environment value.
pub fn resolve_term_width(
    term_cols_override: Option<usize>,
    detected: Option<u16>,
    columns: Option<&str>,
) -> (w: usize)
    ensures
        w == term_width_spec(
            term_cols_override,
            detected,
            match columns {
                Some(v) => Some(v@),
                None => None,
            },
        ),
{
    if let Some(cols) = term_cols_override {
        return cols;
    }
    if let Some(w) = detected {
        if w > 0 {
            return w as usize;
        }
    }
    if let Some(v) = columns {
        if let Some(n) = parse_usize(v) {
            if n > 0 {
                return n;
            }
        }
    }
    80
}

/// A line moved right by `pad` columns; empty lines stay empty.
pub open spec fn center_line(l: Seq<char>, pad: nat) -> Seq<char> {
    if l.len() > 0 {
        repeat_char(' ', pad) + l
    } else {
        l
    }
}

/// Every non-empty line of `text` preceded by `pad` spaces.
pub open spec fn centered(text: Seq<char>, pad: nat) -> Seq<char> {
    join_lines(split_lines(text).map_values(|l: Seq<char>| center_line(l, pad)))
}

/// The reading column: with no requested width it is 40 to 100 columns
/// (the terminal's width when that lies between); a requested width is
/// honoured up to the terminal's width and never goes under 20 columns.
pub proof fn law_column_width(custom: Option<usize>, term: nat)
    ensures
        custom is None ==> 40 <= content_width_spec(custom, term) <= DEFAULT_MAX_WIDTH,
        custom is None && 40 <= term <= DEFAULT_MAX_WIDTH ==> content_width_spec(custom, term) == term,
        custom matches Some(c) ==> (c > 0 ==> content_width_spec(custom, term) == max_nat(min_nat(c as nat, term), 20)),
        custom == Some(0usize) ==> content_width_spec(custom, term) == max_nat(term, 20),
        content_width_spec(custom, term) >= 20,
{
}

/// Centering keeps the column on the screen, with equal margins up to one
/// column: twice the padding plus the column never exceeds the terminal
/// (or the column, when the column is wider).
pub proof fn law_centering_fits(custom: Option<usize>, term: nat, is_term: bool)
    ensures
        content_width_spec(custom, term) + 2 * left_pad_spec(custom, term, is_term)
            <= max_nat(term, content_width_spec(custom, term)),
        is_term && custom != Some(0usize) && content_width_spec(custom, term) <= term ==> term
            - content_width_spec(custom, term) - 2 * left_pad_spec(custom, term, is_term) <= 1,
{
}

/// Centering pads line by line: the lines of the result are the lines of
/// the text, each non-empty one preceded by `pad` spaces.
pub proof fn law_centering_by_line(text: Seq<char>, pad: nat)
    ensures
        split_lines(centered(text, pad)) == split_lines(text).map_values(|l: Seq<char>| center_line(l, pad)),
{
    let ls = split_lines(text);
    let ps = ls.map_values(|l: Seq<char>| center_line(l, pad));
    lemma_split_pieces_plain(text);
    lemma_split_lines_nonempty(text);
    assert forall|j: int| 0 <= j < ps.len() implies no_newline(#[trigger] ps[j]) by {
        assert(no_newline(ls[j]));
        let p = ps[j];
        assert forall|i: int| 0 <= i < p.len() implies #[trigger] p[i] != '\n' by {
            if ls[j].len() > 0 && i < pad {
                assert(p[i] == repeat_char(' ', pad)[i]);
            } else if ls[j].len() > 0 {
                assert(p[i] == ls[j][i - pad]);
            }
        }
    }
    lemma_split_join(ps);
}

/// Centering by zero columns leaves the text as it is.
pub proof fn law_centering_by_zero(text: Seq<char>)
    ensures
        centered(text, 0) == text,
{
    let ls = split_lines(text);
    assert(ls.map_values(|l: Seq<char>| center_line(l, 0)) =~= ls) by {
        assert forall|i: int| 0 <= i < ls.len() implies #[trigger] center_line(ls[i], 0) == ls[i] by {
            assert(repeat_char(' ', 0) + ls[i] =~= ls[i]);
        }
    }
    lemma_join_split(text);
}

pub fn apply_centering(text: &str, left_pad: usize) -> (res: String)
    ensures
        res@ == centered(text@, left_pad as nat),
{
    if left_pad == 0 {
        proof {
            law_centering_by_zero(text@);
        }
        return text.to_owned();
    }
    let cs = chars_of(text);
    let lines = split_lines_exec(cs.as_slice());
    let ghost ls = vecs_view(lines@);
    let mut padded: Vec<Vec<char>> = Vec::new();
    let mut k: usize = 0;
    while k < lines.len()
        invariant
            k <= lines@.len(),
            ls == vecs_view(lines@),
            vecs_view(padded@) == ls.take(k as int).map_values(|l: Seq<char>| center_line(l, left_pad as nat)),
        decreases lines@.len() - k,
    {
        let line = &lines[k];
        let mut out: Vec<char> = Vec::new();
        if line.len() > 0 {
            push_repeat(&mut out, ' ', left_pad);
            push_all(&mut out, line.as_slice());
        }
        assert(out@ == center_line(ls[k as int], left_pad as nat));
        let ghost before = vecs_view(padded@);
        padded.push(out);
        assert(vecs_view(padded@) == before.push(out@));
        k += 1;
        assert(ls.take(k as int).map_values(|l: Seq<char>| center_line(l, left_pad as nat))
            =~= ls.take(k - 1).map_values(|l: Seq<char>| center_line(l, left_pad as nat)).push(out@));
    }
    assert(ls.take(lines@.len() as int) == ls);
    let joined = join_lines_exec(&padded);
    string_of(joined.as_slice())
}

/// SGR color of the frame rules.
pub open spec fn frame_color() -> Seq<char> {
    "\x1b[38;2;90;90;125m"@
}

/// SGR reset.
pub open spec fn sgr_reset() -> Seq<char> {
    "\x1b[0m"@
}

/// A frame rule of `width - 4` box-drawing dashes (none below 4 columns).
pub open spec fn frame_bar(width: nat) -> Seq<char> {
    repeat_char('─', sat_sub(width, 4))
}

/// The footer: two blank lines, then an indented colored rule.
pub open spec fn footer_spec(width: nat) -> Seq<char> {
    "\n\n  "@ + frame_color() + frame_bar(width) + sgr_reset() + "\n"@
}

/// The header: a rule, the `File:` line naming `name`, a rule, a blank line.
pub open spec fn header_spec(name: Seq<char>, width: nat) -> Seq<char> {
    "  "@ + frame_color() + frame_bar(width) + sgr_reset() + "\n"@
        + "  \x1b[38;2;130;130;160mFile: \x1b[1;38;2;84;160;255m"@ + name + sgr_reset() + "\n"@
        + "  "@ + frame_color() + frame_bar(width) + sgr_reset() + "\n\n"@
}

fn push_frame_rule(out: &mut Vec<char>, width: usize)
    ensures
        final(out)@ == old(out)@ + frame_color() + frame_bar(width as nat) + sgr_reset(),
{
    push_str(out, "\x1b[38;2;90;90;125m");
    let bar_len = if width >= 4 { width - 4 } else { 0 };
    push_repeat(out, '─', bar_len);
    push_str(out, "\x1b[0m");
}

/// The framed header above a rendered file; `display_name` is the path as shown.
pub fn format_bat_header(display_name: &str, width: usize) -> (res: String)
    ensures
        res@ == header_spec(display_name@, width as nat),
{
    let mut out: Vec<char> = Vec::new();
    push_str(&mut out, "  ");
    push_frame_rule(&mut out, width);
    push_str(&mut out, "\n");
    push_str(&mut out, "  \x1b[38;2;130;130;160mFile: \x1b[1;38;2;84;160;255m");
    push_str(&mut out, display_name);
    push_str(&mut out, "\x1b[0m");
    push_str(&mut out, "\n");
    push_str(&mut out, "  ");
    push_frame_rule(&mut out, width);
    push_str(&mut out, "\n\n");
    let res = string_of(out.as_slice());
    assert(res@ =~= header_spec(display_name@, width as nat));
    res
}

/// The framed footer below a rendered file.
pub fn format_bat_footer(width: usize) -> (res: String)
    ensures
        res@ == footer_spec(width as nat),
{
    let mut out: Vec<char> = Vec::new();
    push_str(&mut out, "\n\n  ");
    push_frame_rule(&mut out, width);
    push_str(&mut out, "\n");
    let res = string_of(out.as_slice());
    assert(res@ =~= footer_spec(width as nat));
    res
}

/// The document as printed: the file header naming `display_name` when
/// there is one, the rendered text, the footer when there is a header, all
/// centered by `pad` columns.
pub open spec fn framed_document(rendered: Seq<char>, display_name: Option<Seq<char>>, width: nat, pad: nat) -> Seq<char> {
    let full = match display_name {
        Some(n) => header_spec(n, width) + rendered + footer_spec(width),
        None => rendered,
    };
    centered(full, pad)
}

/// Frames and centers a rendered document for the given layout.
pub fn frame_document(rendered: &str, display_name: Option<&str>, layout: &Layout) -> (res: String)
    ensures
        res@ == framed_document(
            rendered@,
            match display_name {
                Some(n) => Some(n@),
                None => None,
            },
            layout.content_width as nat,
            layout.left_pad as nat,
        ),
{
    let mut full: Vec<char> = Vec::new();
    match display_name {
        Some(n) => {
            let header = format_bat_header(n, layout.content_width);
            push_str(&mut full, header.as_str());
            push_str(&mut full, rendered);
            let footer = format_bat_footer(layout.content_width);
            push_str(&mut full, footer.as_str());
        },
        None => {
            push_str(&mut full, rendered);
        },
    }
    let full_s = string_of(full.as_slice());
    apply_centering(full_s.as_str(), layout.left_pad)
}

} // verus!
