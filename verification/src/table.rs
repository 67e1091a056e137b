//! GFM tables drawn with Unicode box characters.

use vstd::prelude::*;
use crate::terminal::{
    char_cols, char_cols_exec, escapes_closed, is_sgr, lemma_char_closed, lemma_closed_cat, lemma_plain_closed,
    lemma_repeat_closed, lemma_sgr, law_plain_text_unchanged, law_truncate_fits, seq_width, esc_free,
    truncate_chars, truncate_visible, visible_width,
    visible_width_chars, visible_width_spec,
};
use crate::text::{chars_of, push_all, push_repeat, push_str, repeat_char, string_of, strings_view};

verus! {

/// Horizontal alignment of a table column.
#[derive(Clone, Copy, Debug, PartialEq, Eq, Structural)]
pub enum Align {
    Unspecified,
    Left,
    Center,
    Right,
}

/// A table as collected from the document: column alignments, the header
/// cells and the body rows (each cell already rendered to terminal text).
pub struct TableData {
    pub alignments: Vec<Align>,
    pub headers: Vec<String>,
    pub rows: Vec<Vec<String>>,
}

/// The rows of a table as character sequences.
pub open spec fn rows_view(rows: Seq<Vec<String>>) -> Seq<Seq<Seq<char>>> {
    rows.map_values(|r: Vec<String>| strings_view(r@))
}

pub open spec fn max_nat(a: nat, b: nat) -> nat {
    if a >= b { a } else { b }
}

/// The longest row length.
pub open spec fn max_row_len(rows: Seq<Seq<Seq<char>>>) -> nat
    decreases rows.len(),
{
    if rows.len() == 0 {
        0
    } else {
        max_nat(max_row_len(rows.drop_last()), rows.last().len())
    }
}

/// Number of columns: the most of alignments, header cells and row cells.
pub open spec fn num_cols_spec(al: Seq<Align>, h: Seq<Seq<char>>, rows: Seq<Seq<Seq<char>>>) -> nat {
    max_nat(max_nat(al.len(), h.len()), max_row_len(rows))
}

/// Visible width of cell `i` of a row (0 for a missing cell).
pub open spec fn cell_width_at(cells: Seq<Seq<char>>, i: int) -> nat {
    if 0 <= i < cells.len() {
        visible_width_spec(cells[i])
    } else {
        0
    }
}

/// Widest cell `i` over the rows.
pub open spec fn rows_col_max(rows: Seq<Seq<Seq<char>>>, i: int) -> nat
    decreases rows.len(),
{
    if rows.len() == 0 {
        0
    } else {
        max_nat(rows_col_max(rows.drop_last(), i), cell_width_at(rows.last(), i))
    }
}

/// Width column `i` needs: its widest cell, at least 3.
pub open spec fn natural_width(h: Seq<Seq<char>>, rows: Seq<Seq<Seq<char>>>, i: int) -> nat {
    max_nat(3, max_nat(cell_width_at(h, i), rows_col_max(rows, i)))
}

pub open spec fn natural_widths(h: Seq<Seq<char>>, rows: Seq<Seq<Seq<char>>>, n: nat) -> Seq<nat> {
    Seq::new(n, |i: int| natural_width(h, rows, i))
}

pub open spec fn nat_sum(s: Seq<nat>) -> nat
    decreases s.len(),
{
    if s.len() == 0 {
        0
    } else {
        nat_sum(s.drop_last()) + s.last()
    }
}

/// Column widths after fitting: when the columns and their `3 * n + 1`
/// border columns exceed `max`, and at least 3 columns per column remain,
/// each width is scaled by `available / total` (rounded down, at least 3).
pub open spec fn fitted_widths(nw: Seq<nat>, max: nat) -> Seq<nat> {
    let n = nw.len();
    let overhead = 3 * n + 1;
    if overhead < max {
        let avail = (max - overhead) as nat;
        let total = nat_sum(nw);
        if total > avail && avail >= n * 3 {
            Seq::new(n, |i: int| max_nat(nw[i] * avail / total, 3))
        } else {
            nw
        }
    } else {
        nw
    }
}

pub open spec fn border_color() -> Seq<char> {
    "\x1b[38;2;95;39;205m"@
}

pub open spec fn reset() -> Seq<char> {
    "\x1b[0m"@
}

pub open spec fn header_bg() -> Seq<char> {
    "\x1b[1;37;48;2;52;31;151m"@
}

/// The dashes and junctions of a border for the first `k` columns.
pub open spec fn border_from(ws: Seq<nat>, k: int, mid: char, right: char) -> Seq<char>
    decreases k,
{
    if k <= 0 {
        Seq::empty()
    } else {
        border_from(ws, k - 1, mid, right) + repeat_char('─', ws[k - 1] + 2)
            + seq![if k < ws.len() { mid } else { right }]
    }
}

/// A horizontal border: `left`, dashes per column separated by `mid`, `right`.
pub open spec fn border_line(ws: Seq<nat>, left: char, mid: char, right: char) -> Seq<char> {
    border_color() + seq![left] + border_from(ws, ws.len() as int, mid, right) + reset()
}

/// Cell `i` of a row, empty when the row is short.
pub open spec fn cell_text(cells: Seq<Seq<char>>, i: int) -> Seq<char> {
    if 0 <= i < cells.len() {
        cells[i]
    } else {
        Seq::empty()
    }
}

/// Alignment of column `i`, `None` past the given alignments.
pub open spec fn align_at(al: Seq<Align>, i: int) -> Align {
    if 0 <= i < al.len() {
        al[i]
    } else {
        Align::Unspecified
    }
}

/// A cell padded with spaces to `width` columns according to `align`,
/// between one space on each side; text wider than the column is cut to it.
pub open spec fn format_cell_spec(text: Seq<char>, width: nat, align: Align, bg: Seq<char>) -> Seq<char> {
    let shown = cell_shown(text, width);
    let tw = visible_width_spec(shown);
    if tw >= width {
        " "@ + bg + shown + reset() + " "@
    } else {
        let diff = (width - tw) as nat;
        match align {
            Align::Right => " "@ + bg + repeat_char(' ', diff) + shown + reset() + " "@,
            Align::Center => " "@ + bg + repeat_char(' ', diff / 2) + shown + repeat_char(
                ' ',
                (diff - diff / 2) as nat,
            ) + reset() + " "@,
            _ => " "@ + bg + shown + repeat_char(' ', diff) + reset() + " "@,
        }
    }
}

/// The text a cell shows: the cell's text, cut to the column when wider.
pub open spec fn cell_shown(text: Seq<char>, width: nat) -> Seq<char> {
    if visible_width_spec(text) > width {
        truncate_visible(text, width)
    } else {
        text
    }
}

/// The cells of a row for the first `k` columns, each followed by a bar.
pub open spec fn row_from(cells: Seq<Seq<char>>, ws: Seq<nat>, al: Seq<Align>, bg: Seq<char>, k: int) -> Seq<char>
    decreases k,
{
    if k <= 0 {
        Seq::empty()
    } else {
        row_from(cells, ws, al, bg, k - 1) + format_cell_spec(cell_text(cells, k - 1), ws[k - 1], align_at(al, k - 1), bg)
            + border_color() + seq!['│'] + reset()
    }
}

/// A table row: a bar, then each cell followed by a bar.
pub open spec fn row_line(cells: Seq<Seq<char>>, ws: Seq<nat>, al: Seq<Align>, bg: Seq<char>) -> Seq<char> {
    border_color() + seq!['│'] + reset() + row_from(cells, ws, al, bg, ws.len() as int)
}

/// The lines of a rendered table: top border, the header row and a divider
/// when there are header cells, one line per body row, bottom border; no
/// lines for a table without columns.
pub open spec fn render_table_spec(
    al: Seq<Align>,
    h: Seq<Seq<char>>,
    rows: Seq<Seq<Seq<char>>>,
    max: nat,
) -> Seq<Seq<char>> {
    let n = num_cols_spec(al, h, rows);
    if n == 0 {
        Seq::empty()
    } else {
        let ws = fitted_widths(natural_widths(h, rows, n), max);
        let head = if h.len() > 0 {
            seq![row_line(h, ws, al, header_bg()), border_line(ws, '├', '┼', '┤')]
        } else {
            Seq::empty()
        };
        seq![border_line(ws, '┌', '┬', '┐')] + head + rows.map_values(
            |r: Seq<Seq<char>>| row_line(r, ws, al, Seq::empty()),
        ) + seq![border_line(ws, '└', '┴', '┘')]
    }
}

proof fn lemma_table_codes()
    ensures
        is_sgr(reset()),
        is_sgr(border_color()),
        is_sgr(header_bg()),
{
    reveal_strlit("\x1b[0m");
    reveal_strlit("\x1b[38;2;95;39;205m");
    reveal_strlit("\x1b[1;37;48;2;52;31;151m");
    let r = reset();
    assert forall|k: int| 2 <= k < r.len() - 1 implies (#[trigger] r[k] == ';' || ('0' <= r[k] && r[k] <= '9')) by {
        assert(k == 2);
    }
    let b = border_color();
    assert forall|k: int| 2 <= k < b.len() - 1 implies (#[trigger] b[k] == ';' || ('0' <= b[k] && b[k] <= '9')) by {
        assert(k == 2 || k == 3 || k == 4 || k == 5 || k == 6 || k == 7 || k == 8 || k == 9 || k == 10 || k == 11
            || k == 12 || k == 13 || k == 14 || k == 15 || k == 16);
    }
    let h = header_bg();
    assert forall|k: int| 2 <= k < h.len() - 1 implies (#[trigger] h[k] == ';' || ('0' <= h[k] && h[k] <= '9')) by {
        assert(k == 2 || k == 3 || k == 4 || k == 5 || k == 6 || k == 7 || k == 8 || k == 9 || k == 10 || k == 11
            || k == 12 || k == 13 || k == 14 || k == 15 || k == 16 || k == 17 || k == 18 || k == 19 || k == 20
            || k == 21);
    }
}

/// The characters tables are drawn with each take one column, as
/// `unicode-width` measures them.
pub open spec fn box_chars_single() -> bool {
    &&& char_cols(' ') == 1
    &&& char_cols('─') == 1
    &&& char_cols('│') == 1
    &&& char_cols('┌') == 1
    &&& char_cols('┬') == 1
    &&& char_cols('┐') == 1
    &&& char_cols('├') == 1
    &&& char_cols('┼') == 1
    &&& char_cols('┤') == 1
    &&& char_cols('└') == 1
    &&& char_cols('┴') == 1
    &&& char_cols('┘') == 1
}

proof fn lemma_space_closed()
    ensures
        " "@ == seq![' '],
        escapes_closed(" "@),
        visible_width_spec(" "@) == char_cols(' '),
{
    reveal_strlit(" ");
    assert(" "@ =~= seq![' ']);
    lemma_char_closed(' ');
}

proof fn lemma_invisible(s: Seq<char>)
    requires
        s.len() == 0 || is_sgr(s),
    ensures
        escapes_closed(s),
        visible_width_spec(s) == 0,
{
    if s.len() == 0 {
        assert(esc_free(s));
        lemma_plain_closed(s);
        law_plain_text_unchanged(s);
    } else {
        lemma_sgr(s);
    }
}

/// A cell is its text fitted to the column, between single spaces:
/// exactly as wide as the column plus two, the text padded when narrower
/// and cut when wider. It holds no unfinished escape sequence when its
/// text holds none.
pub proof fn law_cell_width(text: Seq<char>, width: nat, align: Align, bg: Seq<char>)
    requires
        box_chars_single(),
        escapes_closed(text),
        bg.len() == 0 || is_sgr(bg),
    ensures
        visible_width_spec(format_cell_spec(text, width, align, bg)) == width + 2,
        escapes_closed(format_cell_spec(text, width, align, bg)),
{
    lemma_table_codes();
    lemma_space_closed();
    lemma_invisible(bg);
    lemma_invisible(reset());
    let sp = " "@;
    let shown = cell_shown(text, width);
    if visible_width_spec(text) > width {
        law_truncate_fits(text, width);
    }
    let tw = visible_width_spec(shown);
    assert(escapes_closed(shown) && tw <= width);
    lemma_closed_cat(sp, bg);
    if tw >= width {
        lemma_closed_cat(sp + bg, shown);
        lemma_closed_cat(sp + bg + shown, reset());
        lemma_closed_cat(sp + bg + shown + reset(), sp);
    } else {
        let diff = (width - tw) as nat;
        match align {
            Align::Right => {
                lemma_repeat_closed(' ', diff);
                lemma_closed_cat(sp + bg, repeat_char(' ', diff));
                lemma_closed_cat(sp + bg + repeat_char(' ', diff), shown);
                lemma_closed_cat(sp + bg + repeat_char(' ', diff) + shown, reset());
                lemma_closed_cat(sp + bg + repeat_char(' ', diff) + shown + reset(), sp);
            },
            Align::Center => {
                let l = repeat_char(' ', diff / 2);
                let r = repeat_char(' ', (diff - diff / 2) as nat);
                lemma_repeat_closed(' ', diff / 2);
                lemma_repeat_closed(' ', (diff - diff / 2) as nat);
                lemma_closed_cat(sp + bg, l);
                lemma_closed_cat(sp + bg + l, shown);
                lemma_closed_cat(sp + bg + l + shown, r);
                lemma_closed_cat(sp + bg + l + shown + r, reset());
                lemma_closed_cat(sp + bg + l + shown + r + reset(), sp);
            },
            _ => {
                lemma_repeat_closed(' ', diff);
                lemma_closed_cat(sp + bg, shown);
                lemma_closed_cat(sp + bg + shown, repeat_char(' ', diff));
                lemma_closed_cat(sp + bg + shown + repeat_char(' ', diff), reset());
                lemma_closed_cat(sp + bg + shown + repeat_char(' ', diff) + reset(), sp);
            },
        }
    }
}

proof fn lemma_nat_sum_take_step(ws: Seq<nat>, k: int)
    requires
        0 < k <= ws.len(),
    ensures
        nat_sum(ws.take(k)) == nat_sum(ws.take(k - 1)) + ws[k - 1],
{
    assert(ws.take(k).drop_last() =~= ws.take(k - 1));
}

proof fn lemma_border_from(ws: Seq<nat>, k: int, mid: char, right: char)
    requires
        box_chars_single(),
        0 <= k <= ws.len(),
        char_cols(mid) == 1,
        char_cols(right) == 1,
        !crate::terminal::is_esc(mid),
        !crate::terminal::is_esc(right),
    ensures
        escapes_closed(border_from(ws, k, mid, right)),
        visible_width_spec(border_from(ws, k, mid, right)) == nat_sum(ws.take(k)) + 3 * k,
    decreases k,
{
    if k == 0 {
        let e = Seq::<char>::empty();
        assert(border_from(ws, 0, mid, right) == e);
        lemma_invisible(e);
        assert(ws.take(0) =~= Seq::<nat>::empty());
    } else {
        lemma_border_from(ws, k - 1, mid, right);
        lemma_nat_sum_take_step(ws, k);
        let prev = border_from(ws, k - 1, mid, right);
        let dash = repeat_char('─', ws[k - 1] + 2);
        let j = if k < ws.len() { mid } else { right };
        lemma_repeat_closed('─', ws[k - 1] + 2);
        assert((ws[k - 1] + 2) * char_cols('─') == ws[k - 1] + 2) by (nonlinear_arith)
            requires
                char_cols('─') == 1,
        ;
        lemma_char_closed(j);
        lemma_closed_cat(prev, dash);
        lemma_closed_cat(prev + dash, seq![j]);
    }
}

proof fn lemma_border_line(ws: Seq<nat>, left: char, mid: char, right: char)
    requires
        box_chars_single(),
        char_cols(left) == 1,
        char_cols(mid) == 1,
        char_cols(right) == 1,
        !crate::terminal::is_esc(left),
        !crate::terminal::is_esc(mid),
        !crate::terminal::is_esc(right),
    ensures
        visible_width_spec(border_line(ws, left, mid, right)) == nat_sum(ws) + 3 * ws.len() + 1,
{
    lemma_table_codes();
    lemma_invisible(border_color());
    lemma_invisible(reset());
    lemma_char_closed(left);
    lemma_border_from(ws, ws.len() as int, mid, right);
    assert(ws.take(ws.len() as int) =~= ws);
    let b = border_from(ws, ws.len() as int, mid, right);
    lemma_closed_cat(border_color(), seq![left]);
    lemma_closed_cat(border_color() + seq![left], b);
    lemma_closed_cat(border_color() + seq![left] + b, reset());
}

/// Every cell of row `cells`, within the `ws.len()` columns, ends its
/// escape sequences.
pub open spec fn cells_fit(cells: Seq<Seq<char>>, ws: Seq<nat>) -> bool {
    forall|i: int| 0 <= i < ws.len() ==> escapes_closed(#[trigger] cell_text(cells, i))
}

proof fn lemma_row_from(cells: Seq<Seq<char>>, ws: Seq<nat>, al: Seq<Align>, bg: Seq<char>, k: int)
    requires
        box_chars_single(),
        bg.len() == 0 || is_sgr(bg),
        0 <= k <= ws.len(),
        cells_fit(cells, ws),
    ensures
        escapes_closed(row_from(cells, ws, al, bg, k)),
        visible_width_spec(row_from(cells, ws, al, bg, k)) == nat_sum(ws.take(k)) + 3 * k,
    decreases k,
{
    lemma_table_codes();
    if k == 0 {
        let e = Seq::<char>::empty();
        assert(row_from(cells, ws, al, bg, 0) == e);
        lemma_invisible(e);
        assert(ws.take(0) =~= Seq::<nat>::empty());
    } else {
        lemma_row_from(cells, ws, al, bg, k - 1);
        lemma_nat_sum_take_step(ws, k);
        let prev = row_from(cells, ws, al, bg, k - 1);
        let t = cell_text(cells, k - 1);
        assert(escapes_closed(t));
        let c = format_cell_spec(t, ws[k - 1], align_at(al, k - 1), bg);
        law_cell_width(t, ws[k - 1], align_at(al, k - 1), bg);
        lemma_invisible(border_color());
        lemma_invisible(reset());
        lemma_char_closed('│');
        lemma_closed_cat(prev, c);
        lemma_closed_cat(prev + c, border_color());
        lemma_closed_cat(prev + c + border_color(), seq!['│']);
        lemma_closed_cat(prev + c + border_color() + seq!['│'], reset());
    }
}

proof fn lemma_row_line(cells: Seq<Seq<char>>, ws: Seq<nat>, al: Seq<Align>, bg: Seq<char>)
    requires
        box_chars_single(),
        bg.len() == 0 || is_sgr(bg),
        cells_fit(cells, ws),
    ensures
        visible_width_spec(row_line(cells, ws, al, bg)) == nat_sum(ws) + 3 * ws.len() + 1,
{
    lemma_table_codes();
    lemma_invisible(border_color());
    lemma_invisible(reset());
    lemma_char_closed('│');
    lemma_row_from(cells, ws, al, bg, ws.len() as int);
    assert(ws.take(ws.len() as int) =~= ws);
    let r = row_from(cells, ws, al, bg, ws.len() as int);
    lemma_closed_cat(border_color(), seq!['│']);
    lemma_closed_cat(border_color() + seq!['│'], reset());
    lemma_closed_cat(border_color() + seq!['│'] + reset(), r);
}

/// All cells of the table end their escape sequences.
pub open spec fn table_cells_closed(h: Seq<Seq<char>>, rows: Seq<Seq<Seq<char>>>) -> bool {
    &&& forall|i: int| 0 <= i < h.len() ==> escapes_closed(#[trigger] h[i])
    &&& forall|r: int, i: int| 0 <= r < rows.len() && 0 <= i < rows[r].len() ==> escapes_closed(#[trigger] rows[r][i])
}

proof fn lemma_empty_cell()
    ensures
        escapes_closed(Seq::<char>::empty()),
        visible_width_spec(Seq::<char>::empty()) == 0,
{
    lemma_invisible(Seq::<char>::empty());
}

/// The drawing is a clean box: every line of the table (borders, header,
/// divider, rows) is exactly as wide as the others, the column widths plus
/// three columns per column plus one; cells wider than their column are
/// cut to it.
pub proof fn law_table_lines_equal_width(al: Seq<Align>, h: Seq<Seq<char>>, rows: Seq<Seq<Seq<char>>>, max: nat)
    requires
        box_chars_single(),
        table_cells_closed(h, rows),
    ensures
        forall|j: int| 0 <= j < render_table_spec(al, h, rows, max).len() ==> visible_width_spec(
            #[trigger] render_table_spec(al, h, rows, max)[j],
        ) == nat_sum(fitted_widths(natural_widths(h, rows, num_cols_spec(al, h, rows)), max)) + 3
            * num_cols_spec(al, h, rows) + 1,
{
    let n = num_cols_spec(al, h, rows);
    let ws = fitted_widths(natural_widths(h, rows, n), max);
    let total = nat_sum(ws) + 3 * n + 1;
    let ls = render_table_spec(al, h, rows, max);
    if n > 0 {
        assert(ws.len() == n);
        lemma_empty_cell();
        lemma_table_codes();
        lemma_border_line(ws, '┌', '┬', '┐');
        lemma_border_line(ws, '├', '┼', '┤');
        lemma_border_line(ws, '└', '┴', '┘');
        assert(cells_fit(h, ws)) by {
            assert forall|i: int| 0 <= i < ws.len() implies escapes_closed(#[trigger] cell_text(h, i)) by {
            }
        }
        assert forall|r: int| 0 <= r < rows.len() implies cells_fit(#[trigger] rows[r], ws) by {
            assert forall|i: int| 0 <= i < ws.len() implies escapes_closed(#[trigger] cell_text(rows[r], i)) by {
            }
        }
        if h.len() > 0 {
            lemma_row_line(h, ws, al, header_bg());
        }
        let body = rows.map_values(|r: Seq<Seq<char>>| row_line(r, ws, al, Seq::empty()));
        assert forall|r: int| 0 <= r < body.len() implies visible_width_spec(#[trigger] body[r]) == total by {
            lemma_row_line(rows[r], ws, al, Seq::empty());
        }
        assert forall|j: int| 0 <= j < ls.len() implies visible_width_spec(#[trigger] ls[j]) == total by {
            let head = if h.len() > 0 {
                seq![row_line(h, ws, al, header_bg()), border_line(ws, '├', '┼', '┤')]
            } else {
                Seq::empty()
            };
            let top = seq![border_line(ws, '┌', '┬', '┐')];
            let bot = seq![border_line(ws, '└', '┴', '┘')];
            assert(ls == top + head + body + bot);
            if j == 0 {
                assert(ls[j] == top[0]);
            } else if j < 1 + head.len() {
                assert(ls[j] == head[j - 1]);
            } else if j < 1 + head.len() + body.len() {
                assert(ls[j] == body[j - 1 - head.len()]);
            } else {
                assert(ls[j] == bot[0]);
            }
        }
    }
}

/// A cell whose text fits its column keeps the whole text and is padded by
/// its alignment: a right-aligned cell has the padding before the text, a
/// left-aligned or unaligned one after it, and a centered one splits it,
/// the smaller half before the text.
pub proof fn law_cell_alignment(text: Seq<char>, width: nat, bg: Seq<char>)
    requires
        visible_width_spec(text) <= width,
    ensures
        ({
            let d = (width - visible_width_spec(text)) as nat;
            &&& format_cell_spec(text, width, Align::Right, bg) == " "@ + bg + repeat_char(' ', d) + text + reset()
                + " "@
            &&& format_cell_spec(text, width, Align::Left, bg) == " "@ + bg + text + repeat_char(' ', d) + reset()
                + " "@
            &&& format_cell_spec(text, width, Align::Unspecified, bg) == " "@ + bg + text + repeat_char(' ', d)
                + reset() + " "@
            &&& format_cell_spec(text, width, Align::Center, bg) == " "@ + bg + repeat_char(' ', d / 2) + text
                + repeat_char(' ', (d - d / 2) as nat) + reset() + " "@
        }),
{
    let d = (width - visible_width_spec(text)) as nat;
    assert(cell_shown(text, width) == text);
    if d == 0 {
        assert(repeat_char(' ', 0) =~= Seq::<char>::empty());
        assert(" "@ + bg + repeat_char(' ', d) + text =~= " "@ + bg + text);
        assert(" "@ + bg + text + repeat_char(' ', d) =~= " "@ + bg + text);
    }
}

/// Every row of a table is drawn with its columns' own alignments: below
/// the top border (and below the header row and its divider, when there
/// are header cells), line `r` is body row `r` laid out with the table's
/// alignments, and the header row is laid out with them too, on the header
/// background.
pub proof fn law_table_rows_aligned(al: Seq<Align>, h: Seq<Seq<char>>, rows: Seq<Seq<Seq<char>>>, max: nat)
    requires
        num_cols_spec(al, h, rows) > 0,
    ensures
        ({
            let ws = fitted_widths(natural_widths(h, rows, num_cols_spec(al, h, rows)), max);
            let ls = render_table_spec(al, h, rows, max);
            let first: int = if h.len() > 0 { 3 } else { 1 };
            &&& ls.len() == first + rows.len() + 1
            &&& h.len() > 0 ==> ls[1] == row_line(h, ws, al, header_bg())
            &&& forall|r: int| 0 <= r < rows.len() ==> #[trigger] ls[first + r] == row_line(
                rows[r],
                ws,
                al,
                Seq::empty(),
            )
        }),
{
    let n = num_cols_spec(al, h, rows);
    let ws = fitted_widths(natural_widths(h, rows, n), max);
    let ls = render_table_spec(al, h, rows, max);
    let head = if h.len() > 0 {
        seq![row_line(h, ws, al, header_bg()), border_line(ws, '├', '┼', '┤')]
    } else {
        Seq::empty()
    };
    let body = rows.map_values(|r: Seq<Seq<char>>| row_line(r, ws, al, Seq::empty()));
    let top = seq![border_line(ws, '┌', '┬', '┐')];
    let bot = seq![border_line(ws, '└', '┴', '┘')];
    assert(ls == top + head + body + bot);
    let first: int = if h.len() > 0 { 3 } else { 1 };
    assert(first == 1 + head.len());
    assert forall|r: int| 0 <= r < rows.len() implies #[trigger] ls[first + r] == row_line(
        rows[r],
        ws,
        al,
        Seq::empty(),
    ) by {
        assert(ls[first + r] == body[r]);
    }
}

/// Measures the characters tables are drawn with: each takes one column.
fn measure_box_chars()
    ensures
        box_chars_single(),
{
    let _ = char_cols_exec(' ');
    let _ = char_cols_exec('─');
    let _ = char_cols_exec('│');
    let _ = char_cols_exec('┌');
    let _ = char_cols_exec('┬');
    let _ = char_cols_exec('┐');
    let _ = char_cols_exec('├');
    let _ = char_cols_exec('┼');
    let _ = char_cols_exec('┤');
    let _ = char_cols_exec('└');
    let _ = char_cols_exec('┴');
    let _ = char_cols_exec('┘');
}

/// The tables whose drawing fits in `usize` columns.
pub open spec fn table_fits(al: Seq<Align>, h: Seq<Seq<char>>, rows: Seq<Seq<Seq<char>>>) -> bool {
    let n = num_cols_spec(al, h, rows);
    3 * n + 1 + nat_sum(natural_widths(h, rows, n)) <= usize::MAX
}

/// Pads `text` to `width` columns by its alignment, wrapped in `bg_code`.
pub fn format_cell(text: &str, width: usize, align: Align, bg_code: &str) -> (res: String)
    requires
        visible_width_spec(text@) <= usize::MAX,
    ensures
        res@ == format_cell_spec(text@, width as nat, align, bg_code@),
{
    let text_w = visible_width(text);
    let shown: Vec<char> = if text_w > width {
        truncate_chars(&chars_of(text), width as u128)
    } else {
        chars_of(text)
    };
    let shown_w: u128 = visible_width_chars(&shown);
    let mut out: Vec<char> = Vec::new();
    if shown_w >= width as u128 {
        push_str(&mut out, " ");
        push_str(&mut out, bg_code);
        push_all(&mut out, shown.as_slice());
        push_str(&mut out, "\x1b[0m");
        push_str(&mut out, " ");
    } else {
        let diff = width - shown_w as usize;
        match align {
            Align::Right => {
                push_str(&mut out, " ");
                push_str(&mut out, bg_code);
                push_repeat(&mut out, ' ', diff);
                push_all(&mut out, shown.as_slice());
                push_str(&mut out, "\x1b[0m");
                push_str(&mut out, " ");
            },
            Align::Center => {
                push_str(&mut out, " ");
                push_str(&mut out, bg_code);
                push_repeat(&mut out, ' ', diff / 2);
                push_all(&mut out, shown.as_slice());
                push_repeat(&mut out, ' ', diff - diff / 2);
                push_str(&mut out, "\x1b[0m");
                push_str(&mut out, " ");
            },
            Align::Unspecified | Align::Left => {
                push_str(&mut out, " ");
                push_str(&mut out, bg_code);
                push_all(&mut out, shown.as_slice());
                push_repeat(&mut out, ' ', diff);
                push_str(&mut out, "\x1b[0m");
                push_str(&mut out, " ");
            },
        }
    }
    let res = string_of(out.as_slice());
    assert(res@ =~= format_cell_spec(text@, width as nat, align, bg_code@));
    res
}

proof fn lemma_nat_sum_ge(s: Seq<nat>, j: int)
    requires
        0 <= j < s.len(),
    ensures
        s[j] <= nat_sum(s),
    decreases s.len(),
{
    if j < s.len() - 1 {
        lemma_nat_sum_ge(s.drop_last(), j);
    }
}

proof fn lemma_rows_col_max_ge(rows: Seq<Seq<Seq<char>>>, r: int, j: int)
    requires
        0 <= r < rows.len(),
    ensures
        cell_width_at(rows[r], j) <= rows_col_max(rows, j),
    decreases rows.len(),
{
    if r < rows.len() - 1 {
        lemma_rows_col_max_ge(rows.drop_last(), r, j);
    }
}

proof fn lemma_max_row_len_ge_n(rows: Seq<Seq<Seq<char>>>, n: nat)
    requires
        max_row_len(rows) <= n,
    ensures
        forall|r: int| 0 <= r < rows.len() ==> #[trigger] rows[r].len() <= n,
{
    assert forall|r: int| 0 <= r < rows.len() implies #[trigger] rows[r].len() <= n by {
        lemma_max_row_len_ge(rows, r);
    }
}

proof fn lemma_max_row_len_ge(rows: Seq<Seq<Seq<char>>>, r: int)
    requires
        0 <= r < rows.len(),
    ensures
        rows[r].len() <= max_row_len(rows),
    decreases rows.len(),
{
    if r < rows.len() - 1 {
        lemma_max_row_len_ge(rows.drop_last(), r);
    }
}

proof fn lemma_nat_sum_prefix(s: Seq<nat>, k: int)
    requires
        0 <= k <= s.len(),
    ensures
        nat_sum(s.take(k)) <= nat_sum(s),
    decreases s.len() - k,
{
    if k < s.len() {
        lemma_nat_sum_prefix(s, k + 1);
        assert(s.take(k + 1).drop_last() == s.take(k));
    } else {
        assert(s.take(k) == s);
    }
}

proof fn lemma_scale_fits(w: nat, avail: nat, total: nat)
    requires
        avail < total,
        w <= usize::MAX,
        avail <= usize::MAX,
    ensures
        w * avail / total <= w,
        w * avail <= u128::MAX,
{
    assert(w * avail <= w * total) by (nonlinear_arith)
        requires
            avail < total,
    ;
    assert(w * avail / total <= w * total / total) by (nonlinear_arith)
        requires
            w * avail <= w * total,
            total > 0,
    ;
    assert(w * total / total == w) by (nonlinear_arith)
        requires
            total > 0,
    ;
    assert(w * avail <= u128::MAX) by (nonlinear_arith)
        requires
            w <= usize::MAX,
            avail <= usize::MAX,
    ;
}

/// Widths as naturals.
pub open spec fn widths_view(ws: Seq<usize>) -> Seq<nat> {
    ws.map_values(|w: usize| w as nat)
}

fn border_line_exec(ws: &Vec<usize>, left: char, mid: char, right: char) -> (res: String)
    requires
        forall|i: int| 0 <= i < ws@.len() ==> #[trigger] ws@[i] + 2 <= usize::MAX,
    ensures
        res@ == border_line(widths_view(ws@), left, mid, right),
{
    let ghost wv = widths_view(ws@);
    let mut out: Vec<char> = Vec::new();
    push_str(&mut out, "\x1b[38;2;95;39;205m");
    out.push(left);
    let ghost start = out@;
    let mut k: usize = 0;
    while k < ws.len()
        invariant
            k <= ws@.len(),
            wv == widths_view(ws@),
            forall|i: int| 0 <= i < ws@.len() ==> #[trigger] ws@[i] + 2 <= usize::MAX,
            out@ == start + border_from(wv, k as int, mid, right),
        decreases ws@.len() - k,
    {
        let w = ws[k];
        push_repeat(&mut out, '─', w + 2);
        if k + 1 < ws.len() {
            out.push(mid);
        } else {
            out.push(right);
        }
        k += 1;
        assert(out@ =~= start + border_from(wv, k as int, mid, right));
    }
    push_str(&mut out, "\x1b[0m");
    let res = string_of(out.as_slice());
    assert(res@ =~= border_line(wv, left, mid, right));
    res
}

fn row_line_exec(cells: &Vec<String>, ws: &Vec<usize>, al: &Vec<Align>, bg: &str) -> (res: String)
    requires
        forall|i: int| 0 <= i < ws@.len() ==> #[trigger] cell_width_at(strings_view(cells@), i) <= usize::MAX,
    ensures
        res@ == row_line(strings_view(cells@), widths_view(ws@), al@, bg@),
{
    let ghost wv = widths_view(ws@);
    let ghost cv = strings_view(cells@);
    let mut out: Vec<char> = Vec::new();
    push_str(&mut out, "\x1b[38;2;95;39;205m");
    out.push('│');
    push_str(&mut out, "\x1b[0m");
    let ghost start = out@;
    let mut k: usize = 0;
    while k < ws.len()
        invariant
            k <= ws@.len(),
            wv == widths_view(ws@),
            cv == strings_view(cells@),
            forall|i: int| 0 <= i < ws@.len() ==> #[trigger] cell_width_at(cv, i) <= usize::MAX,
            out@ == start + row_from(cv, wv, al@, bg@, k as int),
        decreases ws@.len() - k,
    {
        let empty = "";
        proof {
            reveal_strlit("");
            assert(cell_width_at(cv, k as int) <= usize::MAX);
        }
        let text: &str = if k < cells.len() { cells[k].as_str() } else { empty };
        assert(text@ == cell_text(cv, k as int));
        proof {
            if k >= cells.len() {
                assert(visible_width_spec(text@) == 0);
            }
        }
        let align = if k < al.len() { al[k] } else { Align::Unspecified };
        let cell = format_cell(text, ws[k], align, bg);
        push_str(&mut out, cell.as_str());
        push_str(&mut out, "\x1b[38;2;95;39;205m");
        out.push('│');
        push_str(&mut out, "\x1b[0m");
        k += 1;
        assert(out@ =~= start + row_from(cv, wv, al@, bg@, k as int));
    }
    let res = string_of(out.as_slice());
    assert(res@ =~= row_line(cv, wv, al@, bg@));
    res
}

impl TableData {
    /// An empty table with the given column alignments.
    pub fn new(alignments: Vec<Align>) -> (t: Self)
        ensures
            t.alignments@ == alignments@,
            t.headers@.len() == 0,
            t.rows@.len() == 0,
    {
        TableData { alignments, headers: Vec::new(), rows: Vec::new() }
    }

    /// The header cells as character sequences.
    pub open spec fn headers_view(&self) -> Seq<Seq<char>> {
        strings_view(self.headers@)
    }

    /// The body rows as character sequences.
    pub open spec fn rows_view(&self) -> Seq<Seq<Seq<char>>> {
        rows_view(self.rows@)
    }

    fn num_cols(&self) -> (n: usize)
        ensures
            n == num_cols_spec(self.alignments@, self.headers_view(), self.rows_view()),
    {
        let ghost rv = self.rows_view();
        let mut m: usize = 0;
        let mut r: usize = 0;
        while r < self.rows.len()
            invariant
                r <= self.rows@.len(),
                rv == self.rows_view(),
                m == max_row_len(rv.take(r as int)),
            decreases self.rows@.len() - r,
        {
            assert(rv.take(r + 1).drop_last() == rv.take(r as int));
            assert(rv[r as int].len() == self.rows@[r as int]@.len());
            let len = self.rows[r].len();
            if len > m {
                m = len;
            }
            r += 1;
        }
        assert(rv.take(self.rows@.len() as int) == rv);
        let a = self.alignments.len();
        let h = self.headers.len();
        let ah = if a >= h { a } else { h };
        if ah >= m { ah } else { m }
    }

    /// Column widths before fitting: the widest cell per column, at least 3.
    fn natural_col_widths(&self, n: usize) -> (cw: Vec<u128>)
        requires
            n == num_cols_spec(self.alignments@, self.headers_view(), self.rows_view()),
        ensures
            cw@.len() == n,
            forall|j: int| 0 <= j < n ==> #[trigger] cw@[j] == natural_widths(self.headers_view(), self.rows_view(), n as nat)[j],
            forall|j: int| 0 <= j < n ==> #[trigger] cw@[j] <= 3 * usize::MAX,
    {
        let ghost hv = self.headers_view();
        let ghost rv = self.rows_view();
        let ghost nw = natural_widths(hv, rv, n as nat);
        let mut cw: Vec<u128> = Vec::new();
        let mut i: usize = 0;
        while i < n
            invariant
                i <= n,
                cw@.len() == i,
                forall|j: int| 0 <= j < i ==> #[trigger] cw@[j] == 3,
            decreases n - i,
        {
            cw.push(3);
            i += 1;
        }
        proof {
            lemma_max_row_len_ge_n(rv, n as nat);
        }
        let mut i: usize = 0;
        while i < self.headers.len()
            invariant
                i <= self.headers@.len(),
                hv == self.headers_view(),
                self.headers@.len() <= n,
                cw@.len() == n,
                forall|j: int| 0 <= j < n ==> #[trigger] cw@[j] <= 3 * usize::MAX,
                forall|j: int| 0 <= j < n ==> #[trigger] cw@[j] == max_nat(
                    3,
                    if j < i { cell_width_at(hv, j) } else { 0 },
                ),
            decreases self.headers@.len() - i,
        {
            assert(hv[i as int] == self.headers@[i as int]@);
            let w = visible_width_chars(&chars_of(self.headers[i].as_str()));
            if w > cw[i] {
                cw.set(i, w);
            }
            i += 1;
        }
        let mut r: usize = 0;
        while r < self.rows.len()
            invariant
                r <= self.rows@.len(),
                hv == self.headers_view(),
                rv == self.rows_view(),
                max_row_len(rv) <= n,
                cw@.len() == n,
                forall|j: int| 0 <= j < n ==> #[trigger] cw@[j] <= 3 * usize::MAX,
                forall|j: int| 0 <= j < n ==> #[trigger] cw@[j] == max_nat(
                    3,
                    max_nat(cell_width_at(hv, j), rows_col_max(rv.take(r as int), j)),
                ),
            decreases self.rows@.len() - r,
        {
            let row = &self.rows[r];
            let ghost cells = rv[r as int];
            assert(cells == strings_view(row@));
            proof {
                lemma_max_row_len_ge(rv, r as int);
            }
            let mut c: usize = 0;
            while c < row.len()
                invariant
                    c <= row@.len(),
                    r < rv.len(),
                    cells == rv[r as int],
                    cells == strings_view(row@),
                    cells.len() <= n,
                    cw@.len() == n,
                    forall|j: int| 0 <= j < n ==> #[trigger] cw@[j] <= 3 * usize::MAX,
                    forall|j: int| 0 <= j < n ==> #[trigger] cw@[j] == max_nat(
                        3,
                        max_nat(
                            cell_width_at(hv, j),
                            max_nat(rows_col_max(rv.take(r as int), j), if j < c { cell_width_at(cells, j) } else { 0 }),
                        ),
                    ),
                decreases row@.len() - c,
            {
                assert(cells[c as int] == row@[c as int]@);
                let w = visible_width_chars(&chars_of(row[c].as_str()));
                if w > cw[c] {
                    cw.set(c, w);
                }
                c += 1;
            }
            proof {
                assert(rv.take(r + 1).drop_last() == rv.take(r as int));
                assert(rv.take(r + 1).last() == cells);
            }
            r += 1;
        }
        assert(rv.take(self.rows@.len() as int) == rv);
        cw
    }

    /// Whether the table's drawing fits in `usize` columns (see `table_fits`).
    pub fn fits(&self) -> (b: bool)
        ensures
            b == table_fits(self.alignments@, self.headers_view(), self.rows_view()),
    {
        let n = self.num_cols();
        let cw = self.natural_col_widths(n);
        let ghost nw = natural_widths(self.headers_view(), self.rows_view(), n as nat);
        let mut total: u128 = 3 * n as u128 + 1;
        if total > usize::MAX as u128 {
            return false;
        }
        assert(nw.take(0) =~= Seq::<nat>::empty());
        let mut k: usize = 0;
        while k < n
            invariant
                k <= n,
                n == num_cols_spec(self.alignments@, self.headers_view(), self.rows_view()),
                nw == natural_widths(self.headers_view(), self.rows_view(), n as nat),
                cw@.len() == n,
                nw.len() == n,
                forall|j: int| 0 <= j < n ==> #[trigger] cw@[j] == nw[j],
                forall|j: int| 0 <= j < n ==> #[trigger] cw@[j] <= 3 * usize::MAX,
                total == 3 * n + 1 + nat_sum(nw.take(k as int)),
                total <= usize::MAX,
            decreases n - k,
        {
            proof {
                assert(nw.take(k + 1).drop_last() == nw.take(k as int));
            }
            total = total + cw[k];
            k += 1;
            if total > usize::MAX as u128 {
                proof {
                    lemma_nat_sum_prefix(nw, k as int);
                    assert(nat_sum(nw) >= nat_sum(nw.take(k as int)));
                }
                return false;
            }
        }
        assert(nw.take(n as int) == nw);
        3 * n as u128 + 1 <= usize::MAX as u128
    }

    pub fn render(&self, max_term_width: usize) -> (lines: Vec<String>)
        requires
            table_fits(self.alignments@, self.headers_view(), self.rows_view()),
        ensures
            strings_view(lines@) == render_table_spec(
                self.alignments@,
                self.headers_view(),
                self.rows_view(),
                max_term_width as nat,
            ),
            table_cells_closed(self.headers_view(), self.rows_view()) ==> forall|j: int|
                0 <= j < lines@.len() ==> visible_width_spec(#[trigger] lines@[j]@) == nat_sum(
                    fitted_widths(
                        natural_widths(
                            self.headers_view(),
                            self.rows_view(),
                            num_cols_spec(self.alignments@, self.headers_view(), self.rows_view()),
                        ),
                        max_term_width as nat,
                    ),
                ) + 3 * num_cols_spec(self.alignments@, self.headers_view(), self.rows_view()) + 1,
            num_cols_spec(self.alignments@, self.headers_view(), self.rows_view()) > 0 ==> ({
                let ws = fitted_widths(
                    natural_widths(
                        self.headers_view(),
                        self.rows_view(),
                        num_cols_spec(self.alignments@, self.headers_view(), self.rows_view()),
                    ),
                    max_term_width as nat,
                );
                let first: int = if self.headers@.len() > 0 { 3 } else { 1 };
                &&& lines@.len() == first + self.rows@.len() + 1
                &&& self.headers@.len() > 0 ==> lines@[1]@ == row_line(
                    self.headers_view(),
                    ws,
                    self.alignments@,
                    header_bg(),
                )
                &&& forall|r: int| 0 <= r < self.rows@.len() ==> #[trigger] lines@[first + r]@ == row_line(
                    self.rows_view()[r],
                    ws,
                    self.alignments@,
                    Seq::empty(),
                )
            }),
    {
        measure_box_chars();
        let ghost hv = self.headers_view();
        let ghost rv = self.rows_view();
        let ghost al = self.alignments@;
        let num_cols = self.num_cols();
        if num_cols == 0 {
            let out: Vec<String> = Vec::new();
            assert(strings_view(out@) =~= Seq::<Seq<char>>::empty());
            return out;
        }
        let ghost nw = natural_widths(hv, rv, num_cols as nat);
        let wide = self.natural_col_widths(num_cols);
        proof {
            assert forall|j: int| 0 <= j < num_cols implies #[trigger] wide@[j] <= usize::MAX by {
                lemma_nat_sum_ge(nw, j);
            }
        }
        let mut col_widths: Vec<usize> = Vec::new();
        let mut k: usize = 0;
        while k < num_cols
            invariant
                k <= num_cols,
                wide@.len() == num_cols,
                forall|j: int| 0 <= j < num_cols ==> #[trigger] wide@[j] <= usize::MAX,
                col_widths@.len() == k,
                forall|j: int| 0 <= j < k ==> #[trigger] col_widths@[j] == wide@[j],
            decreases num_cols - k,
        {
            col_widths.push(wide[k] as usize);
            k += 1;
        }
        assert(widths_view(col_widths@) =~= nw);
        proof {
            assert forall|j: int| 0 <= j < num_cols implies #[trigger] nw[j] <= nat_sum(nw) by {
                lemma_nat_sum_ge(nw, j);
            }
        }
        let overhead = 3 * num_cols + 1;
        if overhead < max_term_width {
            let available_content = max_term_width - overhead;
            let mut total_content: usize = 0;
            let mut k: usize = 0;
            while k < num_cols
                invariant
                    k <= num_cols,
                    col_widths@.len() == num_cols,
                    widths_view(col_widths@) == nw,
                    nat_sum(nw) + 3 * num_cols + 1 <= usize::MAX,
                    total_content == nat_sum(nw.take(k as int)),
                decreases num_cols - k,
            {
                proof {
                    assert(nw.take(k + 1).drop_last() == nw.take(k as int));
                    lemma_nat_sum_prefix(nw, k + 1);
                }
                total_content = total_content + col_widths[k];
                k += 1;
            }
            assert(nw.take(num_cols as int) == nw);
            if total_content > available_content && available_content >= num_cols * 3 {
                let mut k: usize = 0;
                while k < num_cols
                    invariant
                        k <= num_cols,
                        col_widths@.len() == num_cols,
                        nw.len() == num_cols,
                        total_content == nat_sum(nw),
                        available_content < total_content,
                        forall|j: int| k <= j < num_cols ==> #[trigger] col_widths@[j] == nw[j],
                        forall|j: int| 0 <= j < num_cols ==> #[trigger] col_widths@[j] <= nw[j],
                        forall|j: int| 0 <= j < num_cols ==> 3 <= #[trigger] nw[j] <= usize::MAX,
                        forall|j: int| 0 <= j < k ==> #[trigger] col_widths@[j] == max_nat(
                            nw[j] * available_content as nat / total_content as nat,
                            3,
                        ),
                    decreases num_cols - k,
                {
                    let w = col_widths[k];
                    proof {
                        lemma_scale_fits(w as nat, available_content as nat, total_content as nat);
                        assert(w == nw[k as int]);
                    }
                    let scaled = ((w as u128 * available_content as u128) / total_content as u128) as usize;
                    col_widths.set(k, if scaled >= 3 { scaled } else { 3 });
                    k += 1;
                }
                assert(widths_view(col_widths@) =~= fitted_widths(nw, max_term_width as nat));
            }
        }
        let ghost ws = widths_view(col_widths@);
        assert(ws == fitted_widths(nw, max_term_width as nat));
        proof {
            assert forall|i: int| 0 <= i < ws.len() implies #[trigger] ws[i] <= nw[i] by {
                if 3 * num_cols + 1 < max_term_width {
                    let avail = (max_term_width - (3 * num_cols + 1)) as nat;
                    if nat_sum(nw) > avail && avail >= num_cols * 3 {
                        lemma_nat_sum_ge(nw, i);
                        lemma_scale_fits(nw[i], avail, nat_sum(nw));
                    }
                }
            }
            assert forall|i: int| 0 <= i < col_widths@.len() implies #[trigger] col_widths@[i] + 2 <= usize::MAX by {
                lemma_nat_sum_ge(nw, i);
                assert(ws[i] == col_widths@[i]);
            }
        }
        let mut output: Vec<String> = Vec::new();
        let ghost mut out_v: Seq<Seq<char>> = Seq::empty();
        let top = border_line_exec(&col_widths, '┌', '┬', '┐');
        output.push(top);
        proof {
            out_v = out_v.push(border_line(ws, '┌', '┬', '┐'));
            assert(strings_view(output@) =~= out_v);
        }
        if self.headers.len() > 0 {
            proof {
                assert forall|i: int| 0 <= i < ws.len() implies #[trigger] cell_width_at(hv, i) <= usize::MAX by {
                    lemma_nat_sum_ge(nw, i);
                }
            }
            let h_row = row_line_exec(&self.headers, &col_widths, &self.alignments, "\x1b[1;37;48;2;52;31;151m");
            output.push(h_row);
            let mid = border_line_exec(&col_widths, '├', '┼', '┤');
            output.push(mid);
            proof {
                out_v = out_v.push(row_line(hv, ws, al, header_bg())).push(border_line(ws, '├', '┼', '┤'));
                assert(strings_view(output@) =~= out_v);
            }
        }
        let ghost head_len = out_v.len();
        let mut r: usize = 0;
        proof {
            reveal_strlit("");
        }
        while r < self.rows.len()
            invariant
                r <= self.rows@.len(),
                rv == self.rows_view(),
                ws == widths_view(col_widths@),
                forall|i: int| 0 <= i < ws.len() ==> #[trigger] ws[i] <= nw[i],
                nw == natural_widths(hv, rv, num_cols as nat),
                nat_sum(nw) + 3 * num_cols + 1 <= usize::MAX,
                nw.len() == num_cols,
                ws.len() == num_cols,
                al == self.alignments@,
                hv == self.headers_view(),
                num_cols == num_cols_spec(al, hv, rv),
                forall|i: int| 0 <= i < col_widths@.len() ==> #[trigger] col_widths@[i] + 2 <= usize::MAX,
                strings_view(output@) == out_v + rv.take(r as int).map_values(
                    |row: Seq<Seq<char>>| row_line(row, ws, al, Seq::empty()),
                ),
            decreases self.rows@.len() - r,
        {
            proof {
                assert forall|i: int| 0 <= i < ws.len() implies #[trigger] cell_width_at(strings_view(self.rows@[r as int]@), i) <= usize::MAX by {
                    lemma_rows_col_max_ge(rv, r as int, i);
                    lemma_nat_sum_ge(nw, i);
                    assert(rv[r as int] == strings_view(self.rows@[r as int]@));
                }
            }
            let line = row_line_exec(&self.rows[r], &col_widths, &self.alignments, "");
            let ghost before = strings_view(output@);
            output.push(line);
            assert(strings_view(output@) == before.push(line@));
            proof {
                reveal_strlit("");
                assert(""@ =~= Seq::<char>::empty());
                assert(rv[r as int] == strings_view(self.rows@[r as int]@));
            }
            assert(line@ == row_line(rv[r as int], ws, al, Seq::empty()));
            r += 1;
            assert(rv.take(r as int).map_values(|row: Seq<Seq<char>>| row_line(row, ws, al, Seq::empty()))
                =~= rv.take(r - 1).map_values(|row: Seq<Seq<char>>| row_line(row, ws, al, Seq::empty())).push(
                row_line(rv[r - 1], ws, al, Seq::empty()),
            ));
            assert(strings_view(output@) =~= out_v + rv.take(r as int).map_values(
                |row: Seq<Seq<char>>| row_line(row, ws, al, Seq::empty()),
            ));
        }
        assert(rv.take(self.rows@.len() as int) == rv);
        let bot = border_line_exec(&col_widths, '└', '┴', '┘');
        let ghost before = strings_view(output@);
        output.push(bot);
        assert(strings_view(output@) == before.push(bot@));
        let ghost head = if hv.len() > 0 {
            seq![row_line(hv, ws, al, header_bg()), border_line(ws, '├', '┼', '┤')]
        } else {
            Seq::empty()
        };
        assert(out_v =~= seq![border_line(ws, '┌', '┬', '┐')] + head);
        assert(strings_view(output@) =~= render_table_spec(al, hv, rv, max_term_width as nat));
        proof {
            if table_cells_closed(hv, rv) {
                law_table_lines_equal_width(al, hv, rv, max_term_width as nat);
                assert forall|j: int| 0 <= j < output@.len() implies visible_width_spec(#[trigger] output@[j]@)
                    == nat_sum(fitted_widths(natural_widths(hv, rv, num_cols_spec(al, hv, rv)), max_term_width as nat))
                    + 3 * num_cols_spec(al, hv, rv) + 1 by {
                    assert(strings_view(output@)[j] == output@[j]@);
                }
            }
            law_table_rows_aligned(al, hv, rv, max_term_width as nat);
            let first: int = if hv.len() > 0 { 3 } else { 1 };
            assert forall|r: int| 0 <= r < self.rows@.len() implies #[trigger] output@[first + r]@ == row_line(
                rv[r],
                ws,
                al,
                Seq::empty(),
            ) by {
                assert(strings_view(output@)[first + r] == output@[first + r]@);
            }
            if hv.len() > 0 {
                assert(strings_view(output@)[1] == output@[1]@);
            }
        }
        output
    }
}

} // verus!
