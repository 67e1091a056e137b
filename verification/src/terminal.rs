//! ANSI-aware measurement, stripping and word wrapping of terminal text.

use vstd::prelude::*;
use crate::text::{
    chars_of, is_ws, is_ws_exec, push_all, push_repeat, push_str, repeat_char, string_of, strings_view,
};
use unicode_width::UnicodeWidthChar;

verus! {

/// The escape character that opens ANSI CSI and OSC sequences.
pub open spec fn is_esc(c: char) -> bool {
    c == '\u{1b}'
}

/// A CSI sequence ends at its first character in `0x40..=0x7E`.
pub open spec fn is_csi_final(c: char) -> bool {
    '\u{40}' <= c && c <= '\u{7e}'
}

/// Index just past the body of a CSI sequence whose body starts at `j`.
pub open spec fn csi_end(s: Seq<char>, j: int) -> int
    decreases s.len() - j,
{
    if j >= s.len() {
        s.len() as int
    } else if is_csi_final(s[j]) {
        j + 1
    } else {
        csi_end(s, j + 1)
    }
}

/// Index just past the body of an OSC sequence whose body starts at `j`:
/// it ends with BEL or with the string terminator `ESC \`.
pub open spec fn osc_end(s: Seq<char>, j: int) -> int
    decreases s.len() - j,
{
    if j >= s.len() {
        s.len() as int
    } else if s[j] == '\u{7}' {
        j + 1
    } else if is_esc(s[j]) && j + 1 < s.len() && s[j + 1] == '\\' {
        j + 2
    } else {
        osc_end(s, j + 1)
    }
}

/// Index just past the escape sequence that starts with the ESC at `i`.
/// An ESC followed by anything but `[` or `]` swallows that one character.
pub open spec fn escape_end(s: Seq<char>, i: int) -> int {
    if i + 1 >= s.len() {
        s.len() as int
    } else if s[i + 1] == '[' {
        csi_end(s, i + 2)
    } else if s[i + 1] == ']' {
        osc_end(s, i + 2)
    } else {
        i + 2
    }
}

/// A CSI body ends after where it starts and within the text.
pub proof fn lemma_csi_end_bounds(s: Seq<char>, j: int)
    requires
        0 <= j <= s.len(),
    ensures
        j <= csi_end(s, j) <= s.len(),
        j < s.len() ==> j < csi_end(s, j),
    decreases s.len() - j,
{
    if j < s.len() && !is_csi_final(s[j]) {
        lemma_csi_end_bounds(s, j + 1);
    }
}

/// An OSC body ends after where it starts and within the text.
pub proof fn lemma_osc_end_bounds(s: Seq<char>, j: int)
    requires
        0 <= j <= s.len(),
    ensures
        j <= osc_end(s, j) <= s.len(),
        j < s.len() ==> j < osc_end(s, j),
    decreases s.len() - j,
{
    if j < s.len() && s[j] != '\u{7}' && !(is_esc(s[j]) && j + 1 < s.len() && s[j + 1] == '\\') {
        lemma_osc_end_bounds(s, j + 1);
    }
}

/// An escape sequence covers at least its ESC and ends within the text.
pub proof fn lemma_escape_end_bounds(s: Seq<char>, i: int)
    requires
        0 <= i < s.len(),
    ensures
        i < escape_end(s, i) <= s.len(),
{
    if i + 1 < s.len() {
        if s[i + 1] == '[' {
            lemma_csi_end_bounds(s, i + 2);
        } else if s[i + 1] == ']' {
            lemma_osc_end_bounds(s, i + 2);
        }
    }
}

/// The visible characters of `s` from index `i` on: every escape sequence removed.
pub open spec fn strip_from(s: Seq<char>, i: int) -> Seq<char>
    decreases s.len() - i,
{
    if i < 0 || i >= s.len() {
        Seq::empty()
    } else if is_esc(s[i]) {
        let e = escape_end(s, i);
        proof {
            lemma_escape_end_bounds(s, i);
        }
        strip_from(s, e)
    } else {
        seq![s[i]] + strip_from(s, i + 1)
    }
}

proof fn lemma_strip_len(s: Seq<char>, i: int)
    requires
        0 <= i,
    ensures
        strip_from(s, i).len() <= s.len(),
        i <= s.len() ==> strip_from(s, i).len() <= s.len() - i,
    decreases s.len() - i,
{
    if i < s.len() {
        if is_esc(s[i]) {
            lemma_escape_end_bounds(s, i);
            lemma_strip_len(s, escape_end(s, i));
        } else {
            lemma_strip_len(s, i + 1);
        }
    }
}

/// The visible characters of `s`: every ANSI CSI and OSC escape sequence removed.
pub open spec fn strip_seq(s: Seq<char>) -> Seq<char> {
    strip_from(s, 0)
}

/// Whether `s` holds no escape character.
pub open spec fn esc_free(s: Seq<char>) -> bool {
    forall|i: int| 0 <= i < s.len() ==> !is_esc(#[trigger] s[i])
}

proof fn lemma_strip_from_esc_free(s: Seq<char>, i: int)
    requires
        0 <= i,
    ensures
        esc_free(strip_from(s, i)),
    decreases s.len() - i,
{
    if i < s.len() {
        if is_esc(s[i]) {
            lemma_escape_end_bounds(s, i);
            lemma_strip_from_esc_free(s, escape_end(s, i));
        } else {
            lemma_strip_from_esc_free(s, i + 1);
            let r = strip_from(s, i + 1);
            assert forall|k: int| 0 <= k < (seq![s[i]] + r).len() implies !is_esc(#[trigger] (seq![s[i]] + r)[k]) by {
                if k > 0 {
                    assert((seq![s[i]] + r)[k] == r[k - 1]);
                }
            }
        }
    }
}

proof fn lemma_strip_from_plain(s: Seq<char>, i: int)
    requires
        esc_free(s),
        0 <= i <= s.len(),
    ensures
        strip_from(s, i) == s.subrange(i, s.len() as int),
    decreases s.len() - i,
{
    if i < s.len() {
        assert(!is_esc(s[i]));
        lemma_strip_from_plain(s, i + 1);
        assert(seq![s[i]] + s.subrange(i + 1, s.len() as int) =~= s.subrange(i, s.len() as int));
    } else {
        assert(s.subrange(i, s.len() as int) =~= Seq::<char>::empty());
    }
}

/// Stripping leaves no escape character, so stripping twice is stripping
/// once, and a text is exactly as wide as its stripped form.
pub proof fn law_strip_removes_escapes(s: Seq<char>)
    ensures
        esc_free(strip_seq(s)),
        strip_seq(strip_seq(s)) == strip_seq(s),
        visible_width_spec(strip_seq(s)) == visible_width_spec(s),
{
    lemma_strip_from_esc_free(s, 0);
    let t = strip_seq(s);
    lemma_strip_from_plain(t, 0);
    assert(t.subrange(0, t.len() as int) =~= t);
}

/// Text without escape characters is its own visible text.
pub proof fn law_plain_text_unchanged(s: Seq<char>)
    requires
        esc_free(s),
    ensures
        strip_seq(s) == s,
        visible_width_spec(s) == seq_width(s),
{
    lemma_strip_from_plain(s, 0);
    assert(s.subrange(0, s.len() as int) =~= s);
}

/// A CSI body from `j` on reaches its final character inside `s`.
pub open spec fn csi_closed(s: Seq<char>, j: int) -> bool
    decreases s.len() - j,
{
    if j < 0 || j >= s.len() {
        false
    } else if is_csi_final(s[j]) {
        true
    } else {
        csi_closed(s, j + 1)
    }
}

/// An OSC body from `j` on reaches its terminator inside `s`.
pub open spec fn osc_closed(s: Seq<char>, j: int) -> bool
    decreases s.len() - j,
{
    if j < 0 || j >= s.len() {
        false
    } else if s[j] == '\u{7}' {
        true
    } else if is_esc(s[j]) && j + 1 < s.len() && s[j + 1] == '\\' {
        true
    } else {
        osc_closed(s, j + 1)
    }
}

/// The escape sequence at `i` ends inside `s`, whatever follows `s`.
pub open spec fn escape_closed(s: Seq<char>, i: int) -> bool {
    &&& i + 1 < s.len()
    &&& s[i + 1] == '[' ==> csi_closed(s, i + 2)
    &&& s[i + 1] == ']' ==> osc_closed(s, i + 2)
}

/// Every escape sequence of `s` from `i` on ends inside `s`.
pub open spec fn escapes_closed_from(s: Seq<char>, i: int) -> bool
    decreases s.len() - i,
{
    if i < 0 || i >= s.len() {
        true
    } else if is_esc(s[i]) {
        let e = escape_end(s, i);
        proof {
            lemma_escape_end_bounds(s, i);
        }
        escape_closed(s, i) && escapes_closed_from(s, e)
    } else {
        escapes_closed_from(s, i + 1)
    }
}

/// Every escape sequence of `s` ends inside `s`: what follows `s` cannot
/// be read as part of one.
pub open spec fn escapes_closed(s: Seq<char>) -> bool {
    escapes_closed_from(s, 0)
}

proof fn lemma_csi_concat(a: Seq<char>, b: Seq<char>, j: int)
    requires
        0 <= j,
        csi_closed(a, j),
    ensures
        csi_end(a + b, j) == csi_end(a, j),
        csi_end(a, j) <= a.len(),
    decreases a.len() - j,
{
    assert((a + b)[j] == a[j]);
    if !is_csi_final(a[j]) {
        lemma_csi_concat(a, b, j + 1);
    }
}

proof fn lemma_osc_concat(a: Seq<char>, b: Seq<char>, j: int)
    requires
        0 <= j,
        osc_closed(a, j),
    ensures
        osc_end(a + b, j) == osc_end(a, j),
        osc_end(a, j) <= a.len(),
    decreases a.len() - j,
{
    assert((a + b)[j] == a[j]);
    if j + 1 < a.len() {
        assert((a + b)[j + 1] == a[j + 1]);
    }
    if a[j] != '\u{7}' && !(is_esc(a[j]) && j + 1 < a.len() && a[j + 1] == '\\') {
        assert(osc_closed(a, j + 1));
        assert(j + 1 < a.len());
        lemma_osc_concat(a, b, j + 1);
    }
}

proof fn lemma_escape_concat(a: Seq<char>, b: Seq<char>, i: int)
    requires
        0 <= i < a.len(),
        escape_closed(a, i),
    ensures
        escape_end(a + b, i) == escape_end(a, i),
        escape_end(a, i) <= a.len(),
{
    assert((a + b)[i + 1] == a[i + 1]);
    if a[i + 1] == '[' {
        lemma_csi_concat(a, b, i + 2);
    } else if a[i + 1] == ']' {
        lemma_osc_concat(a, b, i + 2);
    }
}

proof fn lemma_csi_shift(a: Seq<char>, b: Seq<char>, k: int)
    requires
        0 <= k,
    ensures
        csi_end(a + b, a.len() + k) == a.len() + csi_end(b, k),
        csi_closed(a + b, a.len() + k) == csi_closed(b, k),
    decreases b.len() - k,
{
    if k < b.len() {
        assert((a + b)[a.len() + k] == b[k]);
        lemma_csi_shift(a, b, k + 1);
    }
}

proof fn lemma_osc_shift(a: Seq<char>, b: Seq<char>, k: int)
    requires
        0 <= k,
    ensures
        osc_end(a + b, a.len() + k) == a.len() + osc_end(b, k),
        osc_closed(a + b, a.len() + k) == osc_closed(b, k),
    decreases b.len() - k,
{
    if k < b.len() {
        assert((a + b)[a.len() + k] == b[k]);
        if k + 1 < b.len() {
            assert((a + b)[a.len() + k + 1] == b[k + 1]);
        }
        lemma_osc_shift(a, b, k + 1);
    }
}

proof fn lemma_escape_shift(a: Seq<char>, b: Seq<char>, k: int)
    requires
        0 <= k < b.len(),
    ensures
        escape_end(a + b, a.len() + k) == a.len() + escape_end(b, k),
        escape_closed(a + b, a.len() + k) == escape_closed(b, k),
{
    if k + 1 < b.len() {
        assert((a + b)[a.len() + k + 1] == b[k + 1]);
    }
    lemma_csi_shift(a, b, k + 2);
    lemma_osc_shift(a, b, k + 2);
}

proof fn lemma_strip_shift(a: Seq<char>, b: Seq<char>, k: int)
    requires
        0 <= k,
    ensures
        strip_from(a + b, a.len() + k) == strip_from(b, k),
        escapes_closed_from(a + b, a.len() + k) == escapes_closed_from(b, k),
    decreases b.len() - k,
{
    if k < b.len() {
        assert((a + b)[a.len() + k] == b[k]);
        if is_esc(b[k]) {
            lemma_escape_shift(a, b, k);
            lemma_escape_end_bounds(b, k);
            lemma_strip_shift(a, b, escape_end(b, k));
        } else {
            lemma_strip_shift(a, b, k + 1);
        }
    }
}

proof fn lemma_strip_concat_from(a: Seq<char>, b: Seq<char>, i: int)
    requires
        0 <= i <= a.len(),
        escapes_closed_from(a, i),
    ensures
        strip_from(a + b, i) == strip_from(a, i) + strip_seq(b),
        escapes_closed(b) ==> escapes_closed_from(a + b, i),
    decreases a.len() - i,
{
    if i == a.len() {
        lemma_strip_shift(a, b, 0);
        assert(Seq::<char>::empty() + strip_seq(b) =~= strip_seq(b));
    } else {
        assert((a + b)[i] == a[i]);
        if is_esc(a[i]) {
            lemma_escape_concat(a, b, i);
            lemma_escape_end_bounds(a, i);
            lemma_strip_concat_from(a, b, escape_end(a, i));
            assert(escape_closed(a + b, i)) by {
                assert((a + b)[i + 1] == a[i + 1]);
                if a[i + 1] == '[' {
                    lemma_csi_closed_concat(a, b, i + 2);
                }
                if a[i + 1] == ']' {
                    lemma_osc_closed_concat(a, b, i + 2);
                }
            }
        } else {
            lemma_strip_concat_from(a, b, i + 1);
            assert(seq![a[i]] + (strip_from(a, i + 1) + strip_seq(b)) =~= (seq![a[i]] + strip_from(a, i + 1)) + strip_seq(b));
        }
    }
}

proof fn lemma_csi_closed_concat(a: Seq<char>, b: Seq<char>, j: int)
    requires
        0 <= j,
        csi_closed(a, j),
    ensures
        csi_closed(a + b, j),
    decreases a.len() - j,
{
    assert((a + b)[j] == a[j]);
    if !is_csi_final(a[j]) {
        lemma_csi_closed_concat(a, b, j + 1);
    }
}

proof fn lemma_osc_closed_concat(a: Seq<char>, b: Seq<char>, j: int)
    requires
        0 <= j,
        osc_closed(a, j),
    ensures
        osc_closed(a + b, j),
    decreases a.len() - j,
{
    assert((a + b)[j] == a[j]);
    if j + 1 < a.len() {
        assert((a + b)[j + 1] == a[j + 1]);
    }
    if a[j] != '\u{7}' && !(is_esc(a[j]) && j + 1 < a.len() && a[j + 1] == '\\') {
        lemma_osc_closed_concat(a, b, j + 1);
    }
}

/// Text whose escape sequences all end inside it can be followed by any
/// text: the visible text of the two together is the visible text of each,
/// their widths add up, and if both are closed so is the whole.
pub proof fn law_strip_concat(a: Seq<char>, b: Seq<char>)
    requires
        escapes_closed(a),
    ensures
        strip_seq(a + b) == strip_seq(a) + strip_seq(b),
        visible_width_spec(a + b) == visible_width_spec(a) + visible_width_spec(b),
        escapes_closed(b) ==> escapes_closed(a + b),
{
    lemma_strip_concat_from(a, b, 0);
    lemma_seq_width_append(strip_seq(a), strip_seq(b));
}

/// An SGR escape: ESC, `[`, digits and semicolons, then `m`.
pub open spec fn is_sgr(s: Seq<char>) -> bool {
    &&& s.len() >= 3
    &&& is_esc(s[0])
    &&& s[1] == '['
    &&& s.last() == 'm'
    &&& forall|k: int| 2 <= k < s.len() - 1 ==> (#[trigger] s[k] == ';' || ('0' <= s[k] && s[k] <= '9'))
}

proof fn lemma_sgr_body(s: Seq<char>, j: int)
    requires
        is_sgr(s),
        2 <= j < s.len(),
    ensures
        csi_end(s, j) == s.len(),
        csi_closed(s, j),
    decreases s.len() - j,
{
    if j < s.len() - 1 {
        assert(s[j] == ';' || ('0' <= s[j] && s[j] <= '9'));
        lemma_sgr_body(s, j + 1);
    }
}

/// An SGR escape is closed and shows nothing.
pub proof fn lemma_sgr(s: Seq<char>)
    requires
        is_sgr(s),
    ensures
        escapes_closed(s),
        strip_seq(s) == Seq::<char>::empty(),
        visible_width_spec(s) == 0,
{
    lemma_sgr_body(s, 2);
    assert(escape_end(s, 0) == s.len());
    assert(strip_from(s, s.len() as int) =~= Seq::<char>::empty());
    assert(strip_from(s, 0) == strip_from(s, s.len() as int));
    assert(escapes_closed_from(s, s.len() as int));
}

proof fn lemma_plain_closed_from(s: Seq<char>, i: int)
    requires
        esc_free(s),
        0 <= i,
    ensures
        escapes_closed_from(s, i),
    decreases s.len() - i,
{
    if i < s.len() {
        assert(!is_esc(s[i]));
        lemma_plain_closed_from(s, i + 1);
    }
}

/// Text without escape characters is closed.
pub proof fn lemma_plain_closed(s: Seq<char>)
    requires
        esc_free(s),
    ensures
        escapes_closed(s),
{
    lemma_plain_closed_from(s, 0);
}

/// Two closed texts together are closed and as wide as both.
pub proof fn lemma_closed_cat(a: Seq<char>, b: Seq<char>)
    requires
        escapes_closed(a),
        escapes_closed(b),
    ensures
        escapes_closed(a + b),
        visible_width_spec(a + b) == visible_width_spec(a) + visible_width_spec(b),
{
    law_strip_concat(a, b);
}

/// `n` copies of a character other than ESC: closed, `n` times as wide.
pub proof fn lemma_repeat_closed(c: char, n: nat)
    requires
        !is_esc(c),
    ensures
        escapes_closed(repeat_char(c, n)),
        visible_width_spec(repeat_char(c, n)) == n * char_cols(c),
    decreases n,
{
    let r = repeat_char(c, n);
    assert(esc_free(r));
    lemma_plain_closed(r);
    law_plain_text_unchanged(r);
    if n > 0 {
        lemma_repeat_closed(c, (n - 1) as nat);
        let p = repeat_char(c, (n - 1) as nat);
        law_plain_text_unchanged(p);
        assert(r.drop_last() =~= p);
        assert(r.last() == c);
        assert(seq_width(r) == seq_width(p) + char_cols(c));
        assert(n * char_cols(c) == (n - 1) * char_cols(c) + char_cols(c)) by (nonlinear_arith)
            requires
                n > 0,
        ;
        assert(visible_width_spec(r) == n * char_cols(c));
    } else {
        assert(r =~= Seq::<char>::empty());
        assert(n * char_cols(c) == 0) by (nonlinear_arith)
            requires
                n == 0,
        ;
        assert(seq_width(r) == 0);
    }
}

/// A single character other than ESC: closed, as wide as the character.
pub proof fn lemma_char_closed(c: char)
    requires
        !is_esc(c),
    ensures
        escapes_closed(seq![c]),
        visible_width_spec(seq![c]) == char_cols(c),
{
    assert(esc_free(seq![c]));
    lemma_plain_closed(seq![c]);
    law_plain_text_unchanged(seq![c]);
    lemma_seq_width_single(c);
}

/// Index past the escape sequence starting at `i`, computed by scanning.
fn escape_end_exec(cs: &Vec<char>, i: usize) -> (e: usize)
    requires
        i < cs.len(),
        is_esc(cs@[i as int]),
    ensures
        e == escape_end(cs@, i as int),
        i < e <= cs@.len(),
{
    proof {
        lemma_escape_end_bounds(cs@, i as int);
    }
    if i + 1 >= cs.len() {
        return cs.len();
    }
    let kind = cs[i + 1];
    if kind == '[' {
        let mut j = i + 2;
        while j < cs.len() && !('\u{40}' <= cs[j] && cs[j] <= '\u{7e}')
            invariant
                i + 2 <= j <= cs@.len(),
                csi_end(cs@, j as int) == csi_end(cs@, i + 2),
            decreases cs@.len() - j,
        {
            j += 1;
        }
        if j < cs.len() {
            j + 1
        } else {
            j
        }
    } else if kind == ']' {
        let mut j = i + 2;
        loop
            invariant
                i + 2 <= j <= cs@.len(),
                i + 1 < cs@.len(),
                cs@[i + 1] == ']',
                osc_end(cs@, j as int) == osc_end(cs@, i + 2),
                i < osc_end(cs@, i + 2) <= cs@.len(),
            decreases cs@.len() - j,
        {
            if j >= cs.len() {
                return j;
            }
            if cs[j] == '\u{7}' {
                return j + 1;
            }
            if cs[j] == '\u{1b}' && j + 1 < cs.len() && cs[j + 1] == '\\' {
                return j + 2;
            }
            j += 1;
        }
    } else {
        i + 2
    }
}

/// The visible characters of a character sequence.
pub(crate) fn strip_chars(cs: &Vec<char>) -> (out: Vec<char>)
    ensures
        out@ == strip_seq(cs@),
{
    let mut out: Vec<char> = Vec::new();
    let mut i: usize = 0;
    while i < cs.len()
        invariant
            i <= cs@.len(),
            strip_seq(cs@) == out@ + strip_from(cs@, i as int),
        decreases cs@.len() - i,
    {
        if cs[i] == '\u{1b}' {
            i = escape_end_exec(cs, i);
        } else {
            let c = cs[i];
            let ghost prev = out@;
            out.push(c);
            i += 1;
            assert(strip_from(cs@, i - 1) == seq![c] + strip_from(cs@, i as int));
            assert(prev + (seq![c] + strip_from(cs@, i as int)) == out@ + strip_from(cs@, i as int));
        }
    }
    out
}

/// What `unicode_width::UnicodeWidthChar::width` returns for a character.
pub uninterp spec fn unicode_width(c: char) -> Option<usize>;

/// `unicode_width::UnicodeWidthChar::width`: the column width of a character,
/// `None` for control characters. The contract states, as the crate's source
/// shows, that ASCII control codes (below U+0020 and U+007F..U+009F) have no
/// width, printable ASCII is one column wide, no width exceeds three, and
/// the box-drawing characters of `is_box_char` and the rounded corners of
/// `is_rounded_corner` (all of East Asian width "ambiguous", read as
/// narrow) are one column wide, as the crate's width
/// table gives them; the table lookup for other characters is left to the
/// name `unicode_width`.
/// The box-drawing characters tables are drawn with: the light horizontal
/// and vertical lines, corners and junctions.
pub open spec fn is_box_char(c: char) -> bool {
    c == '─' || c == '│' || c == '┌' || c == '┬' || c == '┐' || c == '├' || c == '┼' || c == '┤' || c == '└'
        || c == '┴' || c == '┘'
}

/// The rounded corners alert panels are drawn with.
pub open spec fn is_rounded_corner(c: char) -> bool {
    c == '╭' || c == '╮' || c == '╰' || c == '╯'
}

#[verifier::external_body]
fn char_width(c: char) -> (w: Option<usize>)
    ensures
        w == unicode_width(c),
        w matches Some(n) ==> n <= 3,
        (c as u32) < 0x20 || (0x7f <= (c as u32) && (c as u32) < 0xa0) ==> w is None,
        0x20 <= (c as u32) && (c as u32) < 0x7f ==> w == Some(1usize),
        is_box_char(c) ==> w == Some(1usize),
        is_rounded_corner(c) ==> w == Some(1usize),
{
    UnicodeWidthChar::width(c)
}

/// Columns occupied by one character (control characters occupy none).
pub open spec fn char_cols(c: char) -> nat {
    match unicode_width(c) {
        Some(w) => w as nat,
        None => 0,
    }
}

/// Columns occupied by a sequence of characters, escape codes included as-is.
pub open spec fn seq_width(s: Seq<char>) -> nat
    decreases s.len(),
{
    if s.len() == 0 {
        0
    } else {
        seq_width(s.drop_last()) + char_cols(s.last())
    }
}

/// Visible column width of terminal text: the width of what remains once
/// escape sequences are removed.
pub open spec fn visible_width_spec(s: Seq<char>) -> nat {
    seq_width(strip_seq(s))
}

proof fn lemma_seq_width_append(a: Seq<char>, b: Seq<char>)
    ensures
        seq_width(a + b) == seq_width(a) + seq_width(b),
    decreases b.len(),
{
    if b.len() > 0 {
        assert((a + b).drop_last() == a + b.drop_last());
        lemma_seq_width_append(a, b.drop_last());
    } else {
        assert(a + b == a);
    }
}

/// A printable ASCII character (U+0020 to U+007E).
pub open spec fn printable_ascii(c: char) -> bool {
    0x20 <= (c as u32) && (c as u32) < 0x7f
}

/// Every character of `s` is printable ASCII.
pub open spec fn all_printable_ascii(s: Seq<char>) -> bool {
    forall|i: int| 0 <= i < s.len() ==> printable_ascii(#[trigger] s[i])
}

pub(crate) fn char_cols_exec(c: char) -> (w: usize)
    ensures
        w == char_cols(c),
        w <= 3,
        printable_ascii(c) ==> w == 1,
        is_box_char(c) ==> w == 1,
        is_rounded_corner(c) ==> w == 1,
{
    match char_width(c) {
        Some(w) => w,
        None => 0,
    }
}

/// Width of a character sequence, summing each character's columns.
pub(crate) fn seq_width_wide(cs: &Vec<char>) -> (w: u128)
    ensures
        w == seq_width(cs@),
        w <= 3 * cs@.len(),
        all_printable_ascii(cs@) ==> w == cs@.len(),
{
    let mut w: u128 = 0;
    let mut i: usize = 0;
    while i < cs.len()
        invariant
            i <= cs@.len(),
            w == seq_width(cs@.take(i as int)),
            w <= 3 * i,
            all_printable_ascii(cs@) ==> w == i,
        decreases cs@.len() - i,
    {
        proof {
            assert(cs@.take(i + 1).drop_last() == cs@.take(i as int));
        }
        w = w + char_cols_exec(cs[i]) as u128;
        i += 1;
    }
    assert(cs@.take(cs@.len() as int) == cs@);
    w
}

/// Visible width of a character sequence, escape sequences ignored.
pub(crate) fn visible_width_chars(cs: &Vec<char>) -> (w: u128)
    ensures
        w == visible_width_spec(cs@),
        w <= 3 * usize::MAX,
        w <= 3 * cs@.len(),
        all_printable_ascii(strip_seq(cs@)) ==> w == strip_seq(cs@).len(),
{
    let vis = strip_chars(cs);
    let n = cs.len();
    proof {
        lemma_strip_len(cs@, 0);
    }
    assert(vis@.len() <= n);
    seq_width_wide(&vis)
}

/// The visual column width of a string, ignoring ANSI and OSC escape
/// sequences, for any string: the count is wide enough for every width.
pub fn visible_width_wide(s: &str) -> (w: u128)
    ensures
        w == visible_width_spec(s@),
        w <= 3 * s@.len(),
        all_printable_ascii(strip_seq(s@)) ==> w == strip_seq(s@).len(),
{
    let cs = chars_of(s);
    visible_width_chars(&cs)
}

/// Computes the visual column width of a string, ignoring ANSI and OSC escape sequences.
pub fn visible_width(s: &str) -> (w: usize)
    requires
        visible_width_spec(s@) <= usize::MAX,
    ensures
        w == visible_width_spec(s@),
        all_printable_ascii(strip_seq(s@)) ==> w == strip_seq(s@).len(),
{
    let cs = chars_of(s);
    visible_width_chars(&cs) as usize
}

/// Strips ANSI CSI and OSC escape codes from a string.
pub fn strip_ansi(s: &str) -> (res: String)
    ensures
        res@ == strip_seq(s@),
{
    let cs = chars_of(s);
    let vis = strip_chars(&cs);
    string_of(vis.as_slice())
}

proof fn lemma_csi_sub(s: Seq<char>, a: int, b: int, j: int)
    requires
        0 <= a <= b <= s.len(),
        0 <= j,
        csi_closed(s, a + j),
        csi_end(s, a + j) <= b,
    ensures
        csi_closed(s.subrange(a, b), j),
        csi_end(s.subrange(a, b), j) == csi_end(s, a + j) - a,
    decreases b - a - j,
{
    let t = s.subrange(a, b);
    lemma_csi_end_bounds(s, a + j);
    assert(a + j < b);
    assert(t[j] == s[a + j]);
    if !is_csi_final(s[a + j]) {
        lemma_csi_sub(s, a, b, j + 1);
    }
}

proof fn lemma_osc_sub(s: Seq<char>, a: int, b: int, j: int)
    requires
        0 <= a <= b <= s.len(),
        0 <= j,
        osc_closed(s, a + j),
        osc_end(s, a + j) <= b,
    ensures
        osc_closed(s.subrange(a, b), j),
        osc_end(s.subrange(a, b), j) == osc_end(s, a + j) - a,
    decreases b - a - j,
{
    let t = s.subrange(a, b);
    lemma_osc_end_bounds(s, a + j);
    assert(a + j < b);
    assert(t[j] == s[a + j]);
    if j + 1 < t.len() {
        assert(t[j + 1] == s[a + j + 1]);
    }
    if s[a + j] != '\u{7}' && !(is_esc(s[a + j]) && a + j + 1 < s.len() && s[a + j + 1] == '\\') {
        assert(osc_closed(s, a + j + 1));
        lemma_osc_sub(s, a, b, j + 1);
    }
}

/// A closed escape sequence, taken on its own, is closed and shows nothing.
proof fn lemma_escape_piece(s: Seq<char>, i: int)
    requires
        0 <= i < s.len(),
        is_esc(s[i]),
        escape_closed(s, i),
    ensures
        escapes_closed(s.subrange(i, escape_end(s, i))),
        strip_seq(s.subrange(i, escape_end(s, i))) == Seq::<char>::empty(),
        visible_width_spec(s.subrange(i, escape_end(s, i))) == 0,
{
    let e = escape_end(s, i);
    lemma_escape_end_bounds(s, i);
    let q = s.subrange(i, e);
    if s[i + 1] == '[' {
        lemma_csi_end_bounds(s, i + 2);
    } else if s[i + 1] == ']' {
        lemma_osc_end_bounds(s, i + 2);
    }
    assert(e >= i + 2);
    assert(q[0] == s[i]);
    assert(q[1] == s[i + 1]);
    if s[i + 1] == '[' {
        lemma_csi_sub(s, i, e, 2);
    } else if s[i + 1] == ']' {
        lemma_osc_sub(s, i, e, 2);
    }
    assert(escape_end(q, 0) == q.len());
    assert(strip_from(q, q.len() as int) =~= Seq::<char>::empty());
    assert(escapes_closed_from(q, q.len() as int));
}

/// The visible text of `s` from `i` on, cut once the next visible
/// character would pass `w` columns; escape sequences are kept whole.
pub open spec fn trunc_run(s: Seq<char>, i: int, w: nat, cut: bool) -> Seq<char>
    decreases s.len() - i,
{
    if i < 0 || i >= s.len() {
        Seq::empty()
    } else if is_esc(s[i]) {
        let e = escape_end(s, i);
        proof {
            lemma_escape_end_bounds(s, i);
        }
        s.subrange(i, e) + trunc_run(s, e, w, cut)
    } else if !cut && char_cols(s[i]) <= w {
        seq![s[i]] + trunc_run(s, i + 1, (w - char_cols(s[i])) as nat, false)
    } else {
        trunc_run(s, i + 1, w, true)
    }
}

/// `s` cut to at most `w` visible columns, its escape sequences kept.
pub open spec fn truncate_visible(s: Seq<char>, w: nat) -> Seq<char> {
    trunc_run(s, 0, w, false)
}

proof fn lemma_trunc_run(s: Seq<char>, i: int, w: nat, cut: bool)
    requires
        0 <= i,
        escapes_closed_from(s, i),
    ensures
        escapes_closed(trunc_run(s, i, w, cut)),
        visible_width_spec(trunc_run(s, i, w, cut)) <= w,
    decreases s.len() - i,
{
    if i >= s.len() {
        let e = Seq::<char>::empty();
        assert(esc_free(e));
        lemma_plain_closed(e);
        law_plain_text_unchanged(e);
    } else if is_esc(s[i]) {
        let e = escape_end(s, i);
        lemma_escape_end_bounds(s, i);
        lemma_escape_piece(s, i);
        lemma_trunc_run(s, e, w, cut);
        lemma_closed_cat(s.subrange(i, e), trunc_run(s, e, w, cut));
    } else if !cut && char_cols(s[i]) <= w {
        lemma_trunc_run(s, i + 1, (w - char_cols(s[i])) as nat, false);
        lemma_char_closed(s[i]);
        lemma_closed_cat(seq![s[i]], trunc_run(s, i + 1, (w - char_cols(s[i])) as nat, false));
    } else {
        lemma_trunc_run(s, i + 1, w, true);
    }
}

/// Cutting closed text leaves closed text at most `w` columns wide.
pub proof fn law_truncate_fits(s: Seq<char>, w: nat)
    requires
        escapes_closed(s),
    ensures
        escapes_closed(truncate_visible(s, w)),
        visible_width_spec(truncate_visible(s, w)) <= w,
{
    lemma_trunc_run(s, 0, w, false);
}

/// Cuts a character sequence to at most `w` visible columns.
pub(crate) fn truncate_chars(cs: &Vec<char>, w: u128) -> (out: Vec<char>)
    ensures
        out@ == truncate_visible(cs@, w as nat),
{
    let mut out: Vec<char> = Vec::new();
    let mut left: u128 = w;
    let mut cut = false;
    let mut i: usize = 0;
    while i < cs.len()
        invariant
            i <= cs@.len(),
            left <= w,
            out@ + trunc_run(cs@, i as int, left as nat, cut) == truncate_visible(cs@, w as nat),
        decreases cs@.len() - i,
    {
        if cs[i] == '\u{1b}' {
            let e = escape_end_exec(cs, i);
            let ghost o0 = out@;
            let mut k = i;
            while k < e
                invariant
                    i <= k <= e <= cs@.len(),
                    out@ == o0 + cs@.subrange(i as int, k as int),
                decreases e - k,
            {
                out.push(cs[k]);
                k += 1;
                assert(cs@.subrange(i as int, k as int) == cs@.subrange(i as int, k - 1).push(cs@[k - 1]));
            }
            assert(o0 + (cs@.subrange(i as int, e as int) + trunc_run(cs@, e as int, left as nat, cut))
                =~= out@ + trunc_run(cs@, e as int, left as nat, cut));
            i = e;
        } else {
            let c = cs[i];
            let cw = char_cols_exec(c) as u128;
            if !cut && cw <= left {
                let ghost o0 = out@;
                out.push(c);
                left = left - cw;
                assert(o0 + (seq![c] + trunc_run(cs@, i + 1, left as nat, false)) =~= out@ + trunc_run(cs@, i + 1, left as nat, false));
            } else {
                cut = true;
            }
            i += 1;
        }
    }
    assert(out@ + trunc_run(cs@, i as int, left as nat, cut) =~= out@);
    out
}

/// Whether a character is a space or a tab, the blanks that separate words.
pub open spec fn is_blank(c: char) -> bool {
    c == ' ' || c == '\t'
}

/// A word token as a spec value: its raw text (escape sequences included),
/// its visible width, and whether it is a run of blanks.
pub type TokenView = (Seq<char>, nat, bool);

/// The tokenizer as a left-to-right scan over `s` from `i`, with the tokens
/// emitted so far, the raw text and width of the open token, and whether the
/// open token is blank (`None` before the first visible character).
/// Escape sequences join the open token; a change between blank and
/// non-blank characters closes it.
pub open spec fn tok_run(
    s: Seq<char>,
    i: int,
    toks: Seq<TokenView>,
    raw: Seq<char>,
    width: nat,
    in_ws: Option<bool>,
) -> Seq<TokenView>
    decreases s.len() - i,
{
    if i < 0 || i >= s.len() {
        if raw.len() > 0 {
            toks.push((raw, width, in_ws.unwrap_or(false)))
        } else {
            toks
        }
    } else if is_esc(s[i]) {
        let e = escape_end(s, i);
        proof {
            lemma_escape_end_bounds(s, i);
        }
        tok_run(s, e, toks, raw + s.subrange(i, e), width, in_ws)
    } else {
        let c = s[i];
        let sp = is_blank(c);
        match in_ws {
            Some(ws) => {
                if ws != sp {
                    tok_run(s, i + 1, toks.push((raw, width, ws)), seq![c], char_cols(c), Some(sp))
                } else {
                    tok_run(s, i + 1, toks, raw.push(c), width + char_cols(c), in_ws)
                }
            },
            None => tok_run(s, i + 1, toks, raw.push(c), width + char_cols(c), Some(sp)),
        }
    }
}

/// The word tokens of `s`: maximal runs of blank or non-blank visible
/// characters, each carrying the escape sequences met along the way.
pub open spec fn tokenize_spec(s: Seq<char>) -> Seq<TokenView> {
    tok_run(s, 0, Seq::empty(), Seq::empty(), 0, None)
}

/// Sum of the widths of a token sequence.
pub open spec fn tokens_width(toks: Seq<TokenView>) -> nat
    decreases toks.len(),
{
    if toks.len() == 0 {
        0
    } else {
        tokens_width(toks.drop_last()) + toks.last().1
    }
}

proof fn lemma_seq_width_single(c: char)
    ensures
        seq_width(seq![c]) == char_cols(c),
{
    let one = seq![c];
    assert(one.drop_last() =~= Seq::<char>::empty());
    assert(seq_width(one.drop_last()) == 0);
    assert(one.last() == c);
}

/// Visible width of `s` from index `i` on.
pub open spec fn width_from(s: Seq<char>, i: int) -> nat {
    seq_width(strip_from(s, i))
}

proof fn lemma_width_from_step(s: Seq<char>, i: int)
    requires
        0 <= i < s.len(),
    ensures
        is_esc(s[i]) ==> width_from(s, i) == width_from(s, escape_end(s, i)),
        !is_esc(s[i]) ==> width_from(s, i) == char_cols(s[i]) + width_from(s, i + 1),
{
    if !is_esc(s[i]) {
        assert(strip_from(s, i) == seq![s[i]] + strip_from(s, i + 1));
        lemma_seq_width_append(seq![s[i]], strip_from(s, i + 1));
        lemma_seq_width_single(s[i]);
    }
}

/// A word token: raw text, visible width, and whether it is blank.
struct Token {
    raw: Vec<char>,
    visible_width: u128,
    is_whitespace: bool,
}

impl Token {
    spec fn view_tok(&self) -> TokenView {
        (self.raw@, self.visible_width as nat, self.is_whitespace)
    }
}

spec fn tokens_view(v: Seq<Token>) -> Seq<TokenView> {
    v.map_values(|t: Token| t.view_tok())
}

/// Tokenizes an ANSI string into whitespace and non-whitespace tokens,
/// keeping ANSI sequences attached to the preceding or following word.
fn tokenize_ansi(cs: &Vec<char>) -> (tokens: Vec<Token>)
    ensures
        tokens_view(tokens@) == tokenize_spec(cs@),
        tokens_width(tokenize_spec(cs@)) == width_from(cs@, 0),
{
    let total = visible_width_chars(cs);
    let mut tokens: Vec<Token> = Vec::new();
    let mut current_raw: Vec<char> = Vec::new();
    let mut current_width: u128 = 0;
    let mut in_whitespace: Option<bool> = None;
    let mut i: usize = 0;
    assert(tokens_view(tokens@) =~= Seq::<TokenView>::empty());
    while i < cs.len()
        invariant
            i <= cs@.len(),
            current_raw@.len() == 0 ==> current_width == 0,
            tok_run(cs@, i as int, tokens_view(tokens@), current_raw@, current_width as nat, in_whitespace)
                == tokenize_spec(cs@),
            tokens_width(tokens_view(tokens@)) + current_width + width_from(cs@, i as int)
                == width_from(cs@, 0),
            total == width_from(cs@, 0),
            total <= 3 * usize::MAX,
        decreases cs@.len() - i,
    {
        proof {
            lemma_width_from_step(cs@, i as int);
        }
        if cs[i] == '\u{1b}' {
            let e = escape_end_exec(cs, i);
            let ghost before = current_raw@;
            let mut k = i;
            while k < e
                invariant
                    i <= k <= e <= cs@.len(),
                    current_raw@ == before + cs@.subrange(i as int, k as int),
                decreases e - k,
            {
                current_raw.push(cs[k]);
                k += 1;
                assert(cs@.subrange(i as int, k as int) == cs@.subrange(i as int, k - 1).push(cs@[k - 1]));
            }
            i = e;
        } else {
            let c = cs[i];
            let sp = c == ' ' || c == '\t';
            let cw = char_cols_exec(c) as u128;
            match in_whitespace {
                Some(ws) => {
                    if ws != sp {
                        let ghost old_tokens = tokens_view(tokens@);
                        let raw = current_raw;
                        current_raw = Vec::new();
                        let tok = Token { raw, visible_width: current_width, is_whitespace: ws };
                        tokens.push(tok);
                        assert(tokens_view(tokens@) == old_tokens.push(tok.view_tok()));
                        assert(tokens_view(tokens@).drop_last() == old_tokens);
                        current_raw.push(c);
                        assert(current_raw@ == seq![c]);
                        current_width = cw;
                        in_whitespace = Some(sp);
                    } else {
                        current_raw.push(c);
                        current_width = current_width + cw;
                    }
                },
                None => {
                    current_raw.push(c);
                    current_width = current_width + cw;
                    in_whitespace = Some(sp);
                },
            }
            i += 1;
        }
    }
    assert(width_from(cs@, i as int) == 0);
    if current_raw.len() > 0 {
        let ghost old_tokens = tokens_view(tokens@);
        let ws = match in_whitespace {
            Some(b) => b,
            None => false,
        };
        let tok = Token { raw: current_raw, visible_width: current_width, is_whitespace: ws };
        tokens.push(tok);
        assert(tokens_view(tokens@) == old_tokens.push(tok.view_tok()));
        assert(tokens_view(tokens@).drop_last() == old_tokens);
    }
    tokens
}

/// `s` without its trailing spaces and tabs.
pub open spec fn trim_trailing_blanks(s: Seq<char>) -> Seq<char>
    decreases s.len(),
{
    if s.len() > 0 && is_blank(s.last()) {
        trim_trailing_blanks(s.drop_last())
    } else {
        s
    }
}

/// The scan behind `trim_visible_blanks`: `out` is settled, `pend` holds
/// the blanks and escape sequences met since the last visible character
/// that is not a blank, and `pend_esc` the escape sequences among them.
pub open spec fn trim_run(s: Seq<char>, i: int, out: Seq<char>, pend: Seq<char>, pend_esc: Seq<char>) -> Seq<char>
    decreases s.len() - i,
{
    if i < 0 || i >= s.len() {
        out + pend_esc
    } else if is_esc(s[i]) {
        let e = escape_end(s, i);
        proof {
            lemma_escape_end_bounds(s, i);
        }
        trim_run(s, e, out, pend + s.subrange(i, e), pend_esc + s.subrange(i, e))
    } else if is_blank(s[i]) {
        trim_run(s, i + 1, out, pend.push(s[i]), pend_esc)
    } else {
        trim_run(s, i + 1, out + pend.push(s[i]), Seq::empty(), Seq::empty())
    }
}

/// `s` without the spaces and tabs that no visible character follows; the
/// escape sequences among them are kept, in order.
pub open spec fn trim_visible_blanks(s: Seq<char>) -> Seq<char> {
    trim_run(s, 0, Seq::empty(), Seq::empty(), Seq::empty())
}

fn trim_trailing_chars(cs: &Vec<char>) -> (out: Vec<char>)
    ensures
        out@ == trim_visible_blanks(cs@),
{
    let mut out: Vec<char> = Vec::new();
    let mut pend: Vec<char> = Vec::new();
    let mut pend_esc: Vec<char> = Vec::new();
    let mut i: usize = 0;
    while i < cs.len()
        invariant
            i <= cs@.len(),
            trim_run(cs@, i as int, out@, pend@, pend_esc@) == trim_visible_blanks(cs@),
        decreases cs@.len() - i,
    {
        if cs[i] == '\u{1b}' {
            let e = escape_end_exec(cs, i);
            let ghost p0 = pend@;
            let ghost q0 = pend_esc@;
            let mut k = i;
            while k < e
                invariant
                    i <= k <= e <= cs@.len(),
                    pend@ == p0 + cs@.subrange(i as int, k as int),
                    pend_esc@ == q0 + cs@.subrange(i as int, k as int),
                decreases e - k,
            {
                pend.push(cs[k]);
                pend_esc.push(cs[k]);
                k += 1;
                assert(cs@.subrange(i as int, k as int) == cs@.subrange(i as int, k - 1).push(cs@[k - 1]));
            }
            i = e;
        } else if cs[i] == ' ' || cs[i] == '\t' {
            pend.push(cs[i]);
            i += 1;
        } else {
            let ghost o0 = out@;
            pend.push(cs[i]);
            push_all(&mut out, pend.as_slice());
            assert(out@ == o0 + pend@);
            pend = Vec::new();
            pend_esc = Vec::new();
            i += 1;
        }
    }
    push_all(&mut out, pend_esc.as_slice());
    out
}

/// Trims trailing spaces from the end of an ANSI string while preserving any trailing ANSI sequences.
pub fn trim_trailing_ansi_spaces(s: &str) -> (res: String)
    ensures
        res@ == trim_visible_blanks(s@),
{
    let cs = chars_of(s);
    let out = trim_trailing_chars(&cs);
    string_of(out.as_slice())
}

proof fn lemma_trim_blanks_after(out: Seq<char>, pend: Seq<char>)
    requires
        out.len() == 0 || !is_blank(out.last()),
        all_blanks(pend),
    ensures
        trim_trailing_blanks(out + pend) == out,
    decreases pend.len(),
{
    if pend.len() == 0 {
        assert(out + pend =~= out);
    } else {
        assert((out + pend).drop_last() =~= out + pend.drop_last());
        assert((out + pend).last() == pend.last());
        lemma_trim_blanks_after(out, pend.drop_last());
    }
}

/// The SGR reset that closes the styles active at a line break.
pub open spec fn style_reset() -> Seq<char> {
    "\x1b[0m"@
}

/// Whether an escape sequence `q` is an SGR sequence (`ESC [ ... m`).
pub open spec fn is_sgr_seq(q: Seq<char>) -> bool {
    q.len() >= 3 && q[1] == '[' && q.last() == 'm'
}

/// Whether an SGR sequence resets every attribute (`ESC[m` or `ESC[0m`).
pub open spec fn is_sgr_reset(q: Seq<char>) -> bool {
    q.len() == 3 || (q.len() == 4 && q[2] == '0')
}

/// The SGR sequences still in force after reading `s` from `i` on, starting
/// from `active`: each SGR sequence adds itself, a reset clears them all;
/// other escape sequences and visible characters change nothing.
pub open spec fn style_run(s: Seq<char>, i: int, active: Seq<char>) -> Seq<char>
    decreases s.len() - i,
{
    if i < 0 || i >= s.len() {
        active
    } else if is_esc(s[i]) {
        let e = escape_end(s, i);
        proof {
            lemma_escape_end_bounds(s, i);
        }
        let q = s.subrange(i, e);
        style_run(
            s,
            e,
            if is_sgr_seq(q) {
                if is_sgr_reset(q) { Seq::empty() } else { active + q }
            } else {
                active
            },
        )
    } else {
        style_run(s, i + 1, active)
    }
}

/// The styles in force after `s`, starting from `active`.
pub open spec fn style_after(active: Seq<char>, s: Seq<char>) -> Seq<char> {
    style_run(s, 0, active)
}

/// A finished line: the open line trimmed, and closed with a reset when
/// styles are in force.
pub open spec fn close_line(cur: Seq<char>, active: Seq<char>) -> Seq<char> {
    trim_visible_blanks(cur) + if active.len() > 0 { style_reset() } else { Seq::empty() }
}

/// Greedy line filling over a token sequence from token `k`, with the
/// lines finished so far, the open line and its width, whether the open
/// line is the first one, whether it holds a word yet, and the styles in
/// force at its end. Blank tokens before the first word of a line are
/// dropped; a word that would push a line holding a word past `max` starts
/// a new line: the finished one is closed with a reset when styles are in
/// force, and the new one reopens them after `rest`.
pub open spec fn wrap_run(
    toks: Seq<TokenView>,
    k: int,
    max: nat,
    rest: Seq<char>,
    rest_w: nat,
    lines: Seq<Seq<char>>,
    cur: Seq<char>,
    cur_w: nat,
    first: bool,
    has_word: bool,
    active: Seq<char>,
) -> Seq<Seq<char>>
    decreases toks.len() - k,
{
    if k < 0 || k >= toks.len() {
        if has_word || (first && cur.len() > 0) {
            lines.push(trim_visible_blanks(cur))
        } else {
            lines
        }
    } else {
        let t = toks[k];
        if t.2 {
            if !has_word {
                wrap_run(toks, k + 1, max, rest, rest_w, lines, cur, cur_w, first, has_word, active)
            } else {
                wrap_run(toks, k + 1, max, rest, rest_w, lines, cur + t.0, cur_w + t.1, first, has_word,
                    style_after(active, t.0))
            }
        } else if has_word && cur_w + t.1 > max {
            wrap_run(
                toks,
                k + 1,
                max,
                rest,
                rest_w,
                lines.push(close_line(cur, active)),
                rest + active + t.0,
                rest_w + t.1,
                false,
                true,
                style_after(active, t.0),
            )
        } else {
            wrap_run(toks, k + 1, max, rest, rest_w, lines, cur + t.0, cur_w + t.1, first, true,
                style_after(active, t.0))
        }
    }
}

/// The lines `wrap_ansi` produces: the text's tokens filled greedily into
/// lines of at most `max` visible columns, the first line led by `first`,
/// the others by `rest`, trailing blanks trimmed, styles closed at each
/// break and reopened on the next line; a text without words gives the
/// first indent alone.
pub open spec fn wrap_spec(text: Seq<char>, max: nat, first: Seq<char>, rest: Seq<char>) -> Seq<Seq<char>> {
    let ls = wrap_run(
        tokenize_spec(text),
        0,
        max,
        rest,
        visible_width_spec(rest),
        Seq::empty(),
        first,
        visible_width_spec(first),
        true,
        false,
        Seq::empty(),
    );
    if ls.len() == 0 {
        seq![first]
    } else {
        ls
    }
}

/// Updates the styles in force with those `raw` sets or resets.
fn update_style(active: &mut Vec<char>, raw: &Vec<char>)
    ensures
        final(active)@ == style_after(old(active)@, raw@),
{
    let mut i: usize = 0;
    while i < raw.len()
        invariant
            i <= raw@.len(),
            style_run(raw@, i as int, active@) == style_after(old(active)@, raw@),
        decreases raw@.len() - i,
    {
        if raw[i] == '\u{1b}' {
            let e = escape_end_exec(raw, i);
            let ghost q = raw@.subrange(i as int, e as int);
            let is_sgr = e - i >= 3 && raw[i + 1] == '[' && raw[e - 1] == 'm';
            proof {
                if e - i >= 3 {
                    assert(q[1] == raw@[i + 1]);
                    assert(q.last() == raw@[e - 1]);
                    assert(q[2] == raw@[i + 2]);
                }
            }
            if is_sgr {
                if e - i == 3 || (e - i == 4 && raw[i + 2] == '0') {
                    *active = Vec::new();
                } else {
                    let ghost a0 = active@;
                    let mut k = i;
                    while k < e
                        invariant
                            i <= k <= e <= raw@.len(),
                            active@ == a0 + raw@.subrange(i as int, k as int),
                        decreases e - k,
                    {
                        active.push(raw[k]);
                        k += 1;
                        assert(raw@.subrange(i as int, k as int) == raw@.subrange(i as int, k - 1).push(raw@[k - 1]));
                    }
                }
            }
            i = e;
        } else {
            i += 1;
        }
    }
}

proof fn lemma_tokens_width_append(a: Seq<TokenView>, b: Seq<TokenView>)
    ensures
        tokens_width(a + b) == tokens_width(a) + tokens_width(b),
    decreases b.len(),
{
    if b.len() > 0 {
        assert((a + b).drop_last() == a + b.drop_last());
        lemma_tokens_width_append(a, b.drop_last());
    } else {
        assert(a + b == a);
    }
}

/// No character of `s` is a blank.
pub open spec fn no_blanks(s: Seq<char>) -> bool {
    forall|k: int| 0 <= k < s.len() ==> !is_blank(#[trigger] s[k])
}

/// Every character of `s` is a blank.
pub open spec fn all_blanks(s: Seq<char>) -> bool {
    forall|k: int| 0 <= k < s.len() ==> is_blank(#[trigger] s[k])
}

/// `line` is the indent `ind` and at most one word after it.
pub open spec fn one_word_line(line: Seq<char>, ind: Seq<char>) -> bool {
    exists|w: Seq<char>| #[trigger] no_blanks(w) && (line == ind + w || line == trim_trailing_blanks(ind + w))
}

proof fn lemma_trim_blank_tail(core: Seq<char>, tail: Seq<char>)
    requires
        core.len() > 0,
        !is_blank(core.last()),
        all_blanks(tail),
    ensures
        trim_trailing_blanks(core + tail) == core,
    decreases tail.len(),
{
    if tail.len() == 0 {
        assert(core + tail =~= core);
    } else {
        assert((core + tail).drop_last() =~= core + tail.drop_last());
        assert((core + tail).last() == tail.last());
        lemma_trim_blank_tail(core, tail.drop_last());
    }
}

proof fn lemma_trim_blank_suffix(x: Seq<char>, b: Seq<char>)
    requires
        all_blanks(b),
    ensures
        trim_trailing_blanks(x + b) == trim_trailing_blanks(x),
    decreases b.len(),
{
    if b.len() == 0 {
        assert(x + b =~= x);
    } else {
        assert((x + b).drop_last() =~= x + b.drop_last());
        assert((x + b).last() == b.last());
        lemma_trim_blank_suffix(x, b.drop_last());
    }
}

proof fn lemma_empty_closed()
    ensures
        escapes_closed(Seq::<char>::empty()),
        strip_seq(Seq::<char>::empty()) == Seq::<char>::empty(),
{
    let e = Seq::<char>::empty();
    assert(esc_free(e));
    lemma_plain_closed(e);
    law_plain_text_unchanged(e);
}

/// Trimming closed text trims its visible text.
proof fn lemma_trim_strip(s: Seq<char>, i: int, out: Seq<char>, pend: Seq<char>, pe: Seq<char>)
    requires
        0 <= i <= s.len(),
        escapes_closed_from(s, i),
        escapes_closed(out),
        escapes_closed(pend),
        escapes_closed(pe),
        all_blanks(strip_seq(pend)),
        strip_seq(pe) == Seq::<char>::empty(),
        strip_seq(out).len() == 0 || !is_blank(strip_seq(out).last()),
    ensures
        escapes_closed(trim_run(s, i, out, pend, pe)),
        strip_seq(trim_run(s, i, out, pend, pe)) == trim_trailing_blanks(
            strip_seq(out) + strip_seq(pend) + strip_from(s, i),
        ),
    decreases s.len() - i,
{
    if i == s.len() {
        law_strip_concat(out, pe);
        assert(strip_seq(out) + Seq::<char>::empty() =~= strip_seq(out));
        assert(strip_from(s, i) =~= Seq::<char>::empty());
        assert(strip_seq(out) + strip_seq(pend) + strip_from(s, i) =~= strip_seq(out) + strip_seq(pend));
        lemma_trim_blanks_after(strip_seq(out), strip_seq(pend));
    } else if is_esc(s[i]) {
        let e = escape_end(s, i);
        lemma_escape_end_bounds(s, i);
        lemma_escape_piece(s, i);
        let q = s.subrange(i, e);
        law_strip_concat(pend, q);
        law_strip_concat(pe, q);
        assert(strip_seq(pend) + Seq::<char>::empty() =~= strip_seq(pend));
        assert(Seq::<char>::empty() + Seq::<char>::empty() =~= Seq::<char>::empty());
        lemma_trim_strip(s, e, out, pend + q, pe + q);
    } else {
        let c = s[i];
        lemma_char_closed(c);
        law_plain_text_unchanged(seq![c]);
        assert(esc_free(seq![c]));
        assert(pend.push(c) =~= pend + seq![c]);
        law_strip_concat(pend, seq![c]);
        assert(strip_from(s, i) == seq![c] + strip_from(s, i + 1));
        if is_blank(c) {
            let p2 = strip_seq(pend) + seq![c];
            assert(all_blanks(p2)) by {
                assert forall|k: int| 0 <= k < p2.len() implies is_blank(#[trigger] p2[k]) by {
                    if k < strip_seq(pend).len() {
                        assert(p2[k] == strip_seq(pend)[k]);
                    }
                }
            }
            assert(strip_seq(out) + strip_seq(pend) + strip_from(s, i) =~= strip_seq(out) + p2 + strip_from(
                s,
                i + 1,
            ));
            lemma_trim_strip(s, i + 1, out, pend.push(c), pe);
        } else {
            let o2 = out + pend.push(c);
            law_strip_concat(out, pend.push(c));
            lemma_empty_closed();
            assert(strip_seq(o2) =~= strip_seq(out) + strip_seq(pend) + seq![c]);
            assert(strip_seq(o2).last() == c);
            assert(strip_seq(o2) + Seq::<char>::empty() + strip_from(s, i + 1) =~= strip_seq(out) + strip_seq(
                pend,
            ) + strip_from(s, i));
            lemma_trim_strip(s, i + 1, o2, Seq::empty(), Seq::empty());
        }
    }
}

/// Trimming a closed text trims its visible text.
proof fn lemma_trim_visible_closed(s: Seq<char>)
    requires
        escapes_closed(s),
    ensures
        escapes_closed(trim_visible_blanks(s)),
        strip_seq(trim_visible_blanks(s)) == trim_trailing_blanks(strip_seq(s)),
{
    lemma_empty_closed();
    assert(all_blanks(Seq::<char>::empty()));
    lemma_trim_strip(s, 0, Seq::empty(), Seq::empty(), Seq::empty());
    assert(Seq::<char>::empty() + Seq::<char>::empty() + strip_from(s, 0) =~= strip_seq(s));
}

/// A token of closed text: its raw text is closed, its width is the width
/// of its visible text, which is all blanks or has none.
spec fn closed_token(t: TokenView) -> bool {
    &&& escapes_closed(t.0)
    &&& t.1 == seq_width(strip_seq(t.0))
    &&& t.2 ==> all_blanks(strip_seq(t.0))
    &&& !t.2 ==> no_blanks(strip_seq(t.0))
}

proof fn lemma_closed_tokens(
    s: Seq<char>,
    i: int,
    toks: Seq<TokenView>,
    raw: Seq<char>,
    width: nat,
    in_ws: Option<bool>,
)
    requires
        0 <= i <= s.len(),
        escapes_closed_from(s, i),
        forall|j: int| 0 <= j < toks.len() ==> closed_token(#[trigger] toks[j]),
        escapes_closed(raw),
        width == seq_width(strip_seq(raw)),
        in_ws is None ==> strip_seq(raw) == Seq::<char>::empty(),
        in_ws == Some(true) ==> all_blanks(strip_seq(raw)),
        in_ws == Some(false) ==> no_blanks(strip_seq(raw)),
    ensures
        forall|j: int| 0 <= j < tok_run(s, i, toks, raw, width, in_ws).len() ==> closed_token(
            #[trigger] tok_run(s, i, toks, raw, width, in_ws)[j],
        ),
    decreases s.len() - i,
{
    if i < s.len() {
        if is_esc(s[i]) {
            let e = escape_end(s, i);
            lemma_escape_end_bounds(s, i);
            lemma_escape_piece(s, i);
            let q = s.subrange(i, e);
            law_strip_concat(raw, q);
            assert(strip_seq(raw) + Seq::<char>::empty() =~= strip_seq(raw));
            lemma_closed_tokens(s, e, toks, raw + q, width, in_ws);
            assert(tok_run(s, i, toks, raw, width, in_ws) == tok_run(s, e, toks, raw + q, width, in_ws));
        } else {
            let c = s[i];
            let sp = is_blank(c);
            lemma_char_closed(c);
            law_plain_text_unchanged(seq![c]);
            assert(esc_free(seq![c]));
            lemma_seq_width_single(c);
            assert(raw.push(c) =~= raw + seq![c]);
            law_strip_concat(raw, seq![c]);
            lemma_seq_width_append(strip_seq(raw), seq![c]);
            let v2 = strip_seq(raw) + seq![c];
            match in_ws {
                Some(ws) => {
                    if ws != sp {
                        let t = (raw, width, ws);
                        assert(closed_token(t));
                        let toks2 = toks.push(t);
                        assert forall|j: int| 0 <= j < toks2.len() implies closed_token(#[trigger] toks2[j]) by {
                            if j < toks.len() {
                                assert(toks2[j] == toks[j]);
                            }
                        }
                        lemma_closed_tokens(s, i + 1, toks2, seq![c], char_cols(c), Some(sp));
                        assert(tok_run(s, i, toks, raw, width, in_ws) == tok_run(s, i + 1, toks2, seq![c], char_cols(c), Some(sp)));
                    } else {
                        assert(ws ==> all_blanks(v2)) by {
                            if ws {
                                assert forall|k: int| 0 <= k < v2.len() implies is_blank(#[trigger] v2[k]) by {
                                    if k < strip_seq(raw).len() {
                                        assert(v2[k] == strip_seq(raw)[k]);
                                    }
                                }
                            }
                        }
                        assert(!ws ==> no_blanks(v2)) by {
                            if !ws {
                                assert forall|k: int| 0 <= k < v2.len() implies !is_blank(#[trigger] v2[k]) by {
                                    if k < strip_seq(raw).len() {
                                        assert(v2[k] == strip_seq(raw)[k]);
                                    }
                                }
                            }
                        }
                        lemma_closed_tokens(s, i + 1, toks, raw.push(c), width + char_cols(c), in_ws);
                        assert(tok_run(s, i, toks, raw, width, in_ws) == tok_run(s, i + 1, toks, raw.push(c), width + char_cols(c), in_ws));
                    }
                },
                None => {
                    assert(v2 =~= seq![c]);
                    lemma_closed_tokens(s, i + 1, toks, raw.push(c), width + char_cols(c), Some(sp));
                    assert(tok_run(s, i, toks, raw, width, in_ws) == tok_run(s, i + 1, toks, raw.push(c), width + char_cols(c), Some(sp)));
                },
            }
        }
    } else {
        if raw.len() > 0 {
            let t = (raw, width, in_ws.unwrap_or(false));
            assert(closed_token(t));
            let toks2 = toks.push(t);
            assert forall|j: int| 0 <= j < toks2.len() implies closed_token(#[trigger] toks2[j]) by {
                if j < toks.len() {
                    assert(toks2[j] == toks[j]);
                }
            }
        }
    }
}

proof fn lemma_style_closed(s: Seq<char>, i: int, a: Seq<char>)
    requires
        0 <= i <= s.len(),
        escapes_closed_from(s, i),
        escapes_closed(a),
        strip_seq(a) == Seq::<char>::empty(),
    ensures
        escapes_closed(style_run(s, i, a)),
        strip_seq(style_run(s, i, a)) == Seq::<char>::empty(),
    decreases s.len() - i,
{
    if i < s.len() {
        if is_esc(s[i]) {
            let e = escape_end(s, i);
            lemma_escape_end_bounds(s, i);
            lemma_escape_piece(s, i);
            let q = s.subrange(i, e);
            law_strip_concat(a, q);
            assert(Seq::<char>::empty() + Seq::<char>::empty() =~= Seq::<char>::empty());
            lemma_empty_closed();
            let a2 = if is_sgr_seq(q) {
                if is_sgr_reset(q) { Seq::empty() } else { a + q }
            } else {
                a
            };
            lemma_style_closed(s, e, a2);
        } else {
            lemma_style_closed(s, i + 1, a);
        }
    }
}

/// Finished lines fit in `max` columns or show their indent and one word.
spec fn lines_ok_vis(max: nat, first: Seq<char>, rest: Seq<char>, lines: Seq<Seq<char>>) -> bool {
    forall|j: int| 0 <= j < lines.len() ==> seq_width(strip_seq(#[trigger] lines[j])) <= max || one_word_line(
        strip_seq(lines[j]),
        strip_seq(if j == 0 { first } else { rest }),
    )
}

/// The visible text `vis` of the open line led by `vind` holds, up to `n`,
/// the indent and a part ending in a word that fits or is one word, then
/// only blanks.
spec fn open_vis_ok(max: nat, vind: Seq<char>, vis: Seq<char>, n: int) -> bool {
    &&& vind.len() <= n <= vis.len()
    &&& vis.take(vind.len() as int) == vind
    &&& n > vind.len() ==> !is_blank(vis[n - 1])
    &&& all_blanks(vis.skip(n))
    &&& (n > vind.len() && seq_width(vis.take(n)) <= max) || no_blanks(vis.subrange(vind.len() as int, n))
}

proof fn lemma_close_vis(max: nat, first: Seq<char>, rest: Seq<char>, lines: Seq<Seq<char>>, vind: Seq<char>, line: Seq<char>, vis: Seq<char>, n: int)
    requires
        lines_ok_vis(max, first, rest, lines),
        vind == strip_seq(if lines.len() == 0 { first } else { rest }),
        open_vis_ok(max, vind, vis, n),
        strip_seq(line) == trim_trailing_blanks(vis),
    ensures
        lines_ok_vis(max, first, rest, lines.push(line)),
{
    let core = vis.take(n);
    assert(vis =~= core + vis.skip(n));
    let w = vis.subrange(vind.len() as int, n);
    assert(core =~= vind + w) by {
        assert forall|i: int| 0 <= i < core.len() implies core[i] == (vind + w)[i] by {
            if i < vind.len() {
                assert(vis.take(vind.len() as int)[i] == vis[i]);
            }
        }
    }
    if n > vind.len() {
        assert(core.last() == vis[n - 1]);
        lemma_trim_blank_tail(core, vis.skip(n));
        if !(seq_width(core) <= max) {
            assert(no_blanks(w));
            assert(one_word_line(strip_seq(line), vind));
        }
    } else {
        assert(w =~= Seq::<char>::empty());
        lemma_trim_blank_suffix(core, vis.skip(n));
        assert(no_blanks(w));
        assert(one_word_line(strip_seq(line), vind));
    }
    let l2 = lines.push(line);
    assert forall|j: int| 0 <= j < l2.len() implies seq_width(strip_seq(#[trigger] l2[j])) <= max || one_word_line(
        strip_seq(l2[j]),
        strip_seq(if j == 0 { first } else { rest }),
    ) by {
        if j < lines.len() {
            assert(l2[j] == lines[j]);
        }
    }
}

proof fn lemma_wrap_vis(
    toks: Seq<TokenView>,
    k: int,
    max: nat,
    first: Seq<char>,
    rest: Seq<char>,
    lines: Seq<Seq<char>>,
    cur: Seq<char>,
    cur_w: nat,
    is_first: bool,
    has_word: bool,
    active: Seq<char>,
    n: int,
)
    requires
        0 <= k <= toks.len(),
        forall|j: int| 0 <= j < toks.len() ==> closed_token(#[trigger] toks[j]),
        escapes_closed(first),
        escapes_closed(rest),
        lines_ok_vis(max, first, rest, lines),
        is_first <==> lines.len() == 0,
        escapes_closed(cur),
        escapes_closed(active),
        strip_seq(active) == Seq::<char>::empty(),
        cur_w == seq_width(strip_seq(cur)),
        !has_word ==> cur == first && is_first,
        has_word ==> open_vis_ok(max, strip_seq(if is_first { first } else { rest }), strip_seq(cur), n),
    ensures
        lines_ok_vis(
            max,
            first,
            rest,
            wrap_run(toks, k, max, rest, seq_width(strip_seq(rest)), lines, cur, cur_w, is_first, has_word, active),
        ),
    decreases toks.len() - k,
{
    let ind = if is_first { first } else { rest };
    let vind = strip_seq(ind);
    let vis = strip_seq(cur);
    let rw = seq_width(strip_seq(rest));
    lemma_trim_visible_closed(cur);
    if k == toks.len() {
        if has_word {
            lemma_close_vis(max, first, rest, lines, vind, trim_visible_blanks(cur), vis, n);
        } else if is_first && cur.len() > 0 {
            let e = Seq::<char>::empty();
            assert(vind + e =~= vind);
            assert(no_blanks(e));
            assert(one_word_line(strip_seq(trim_visible_blanks(cur)), vind));
            let l2 = lines.push(trim_visible_blanks(cur));
            assert forall|j: int| 0 <= j < l2.len() implies seq_width(strip_seq(#[trigger] l2[j])) <= max
                || one_word_line(strip_seq(l2[j]), strip_seq(if j == 0 { first } else { rest })) by {
            }
        }
    } else {
        let t = toks[k];
        assert(closed_token(t));
        let vt = strip_seq(t.0);
        law_strip_concat(cur, t.0);
        lemma_seq_width_append(vis, vt);
        lemma_style_closed(t.0, 0, active);
        let c2 = cur + t.0;
        let v2 = vis + vt;
        assert(strip_seq(c2) == v2);
        if t.2 {
            if has_word {
                assert(v2.take(n) =~= vis.take(n));
                assert(v2.take(vind.len() as int) =~= vis.take(vind.len() as int));
                assert(v2.skip(n) =~= vis.skip(n) + vt);
                assert(v2.subrange(vind.len() as int, n) =~= vis.subrange(vind.len() as int, n));
                if n > vind.len() {
                    assert(v2[n - 1] == vis[n - 1]);
                }
                assert(all_blanks(v2.skip(n))) by {
                    assert forall|i: int| 0 <= i < v2.skip(n).len() implies is_blank(#[trigger] v2.skip(n)[i]) by {
                        if i < vis.skip(n).len() {
                            assert(v2.skip(n)[i] == vis.skip(n)[i]);
                        } else {
                            assert(v2.skip(n)[i] == vt[i - vis.skip(n).len()]);
                        }
                    }
                }
                lemma_wrap_vis(toks, k + 1, max, first, rest, lines, c2, cur_w + t.1, is_first, has_word,
                    style_after(active, t.0), n);
            } else {
                lemma_wrap_vis(toks, k + 1, max, first, rest, lines, cur, cur_w, is_first, has_word, active, n);
            }
        } else if has_word && cur_w + t.1 > max {
            let line = close_line(cur, active);
            lemma_table_reset();
            lemma_empty_closed();
            law_strip_concat(trim_visible_blanks(cur), if active.len() > 0 { style_reset() } else { Seq::empty() });
            assert(strip_seq(line) =~= trim_trailing_blanks(vis));
            lemma_close_vis(max, first, rest, lines, vind, line, vis, n);
            let l2 = lines.push(line);
            let c3 = rest + active + t.0;
            law_strip_concat(rest, active);
            law_strip_concat(rest + active, t.0);
            let vr = strip_seq(rest);
            assert(vr + Seq::<char>::empty() =~= vr);
            let v3 = vr + vt;
            assert(strip_seq(c3) == v3);
            lemma_seq_width_append(vr, vt);
            assert(v3.take(vr.len() as int) =~= vr);
            assert(v3.subrange(vr.len() as int, v3.len() as int) =~= vt);
            let n3: int = v3.len() as int;
            assert(v3.skip(n3) =~= Seq::<char>::empty());
            if vt.len() > 0 {
                assert(v3[n3 - 1] == vt[vt.len() - 1]);
            }
            lemma_wrap_vis(toks, k + 1, max, first, rest, l2, c3, rw + t.1, false, true, style_after(active, t.0), n3);
        } else {
            let n2: int = if vt.len() > 0 { v2.len() as int } else if has_word { n } else { vind.len() as int };
            assert(v2.take(vind.len() as int) =~= vis.take(vind.len() as int));
            if !has_word {
                assert(vis.take(vind.len() as int) =~= vind);
            }
            if vt.len() > 0 {
                assert(v2.skip(n2) =~= Seq::<char>::empty());
                assert(v2[n2 - 1] == vt[vt.len() - 1]);
                assert(v2.take(n2) =~= v2);
                if !has_word {
                    assert(vis =~= vind);
                    assert(v2.subrange(vind.len() as int, n2) =~= vt);
                }
            } else {
                assert(v2 =~= vis);
                if !has_word {
                    assert(vis =~= vind);
                    assert(vis.skip(vind.len() as int) =~= Seq::<char>::empty());
                    assert(vis.subrange(vind.len() as int, vind.len() as int) =~= Seq::<char>::empty());
                }
            }
            lemma_wrap_vis(toks, k + 1, max, first, rest, lines, c2, cur_w + t.1, is_first, true,
                style_after(active, t.0), n2);
        }
    }
}

proof fn lemma_table_reset()
    ensures
        escapes_closed(style_reset()),
        strip_seq(style_reset()) == Seq::<char>::empty(),
{
    reveal_strlit("\x1b[0m");
    let r = style_reset();
    assert forall|k: int| 2 <= k < r.len() - 1 implies (#[trigger] r[k] == ';' || ('0' <= r[k] && r[k] <= '9')) by {
        assert(k == 2);
    }
    lemma_sgr(r);
}

/// Wrapping respects the width: for text and indents whose escape
/// sequences all end inside them, every line is at most `max` columns wide
/// unless it shows its indent and a single word (a word too wide for a line
/// is kept whole on a line of its own); the escape codes that close and
/// reopen styles take no columns.
pub proof fn law_wrap_fits(text: Seq<char>, max: nat, first: Seq<char>, rest: Seq<char>)
    requires
        escapes_closed(text),
        escapes_closed(first),
        escapes_closed(rest),
    ensures
        wrap_spec(text, max, first, rest).len() >= 1,
        forall|j: int| 0 <= j < wrap_spec(text, max, first, rest).len() ==> visible_width_spec(
            #[trigger] wrap_spec(text, max, first, rest)[j],
        ) <= max || one_word_line(
            strip_seq(wrap_spec(text, max, first, rest)[j]),
            strip_seq(if j == 0 { first } else { rest }),
        ),
{
    lemma_empty_closed();
    assert(all_blanks(Seq::<char>::empty()));
    lemma_closed_tokens(text, 0, Seq::empty(), Seq::empty(), 0, None);
    lemma_wrap_vis(
        tokenize_spec(text),
        0,
        max,
        first,
        rest,
        Seq::empty(),
        first,
        seq_width(strip_seq(first)),
        true,
        false,
        Seq::empty(),
        0,
    );
    let ls = wrap_run(tokenize_spec(text), 0, max, rest, visible_width_spec(rest), Seq::empty(), first,
        visible_width_spec(first), true, false, Seq::empty());
    let out = wrap_spec(text, max, first, rest);
    if ls.len() == 0 {
        let e = Seq::<char>::empty();
        assert(strip_seq(first) + e =~= strip_seq(first));
        assert(no_blanks(e));
        assert(one_word_line(strip_seq(first), strip_seq(first)));
    }
}

/// Wraps text cleanly at word boundaries respecting terminal width,
/// with support for leading line indent and continuation indent.
pub fn wrap_ansi(text: &str, max_width: usize, first_indent: &str, rest_indent: &str) -> (lines: Vec<String>)
    ensures
        lines@.len() == wrap_spec(text@, max_width as nat, first_indent@, rest_indent@).len(),
        forall|j: int|
            0 <= j < lines@.len() ==> #[trigger] lines@[j]@ == wrap_spec(
                text@,
                max_width as nat,
                first_indent@,
                rest_indent@,
            )[j],
{
    let tcs = chars_of(text);
    let tokens = tokenize_ansi(&tcs);
    let ghost toks = tokens_view(tokens@);
    let first_cs = chars_of(first_indent);
    let rest_cs = chars_of(rest_indent);
    let first_indent_width = visible_width_chars(&first_cs);
    let rest_indent_width = visible_width_chars(&rest_cs);
    let text_width = visible_width_chars(&tcs);
    let ghost tw = tokens_width(toks);
    let ghost max = max_width as nat;

    let mut lines: Vec<String> = Vec::new();
    let ghost mut lines_v: Seq<Seq<char>> = Seq::empty();
    let mut current_line: Vec<char> = chars_of(first_indent);
    let mut current_line_width: u128 = first_indent_width;
    let mut is_first_line = true;
    let mut has_content_on_line = false;
    let mut active: Vec<char> = Vec::new();
    let mut k: usize = 0;
    while k < tokens.len()
        invariant
            k <= tokens@.len(),
            toks == tokens_view(tokens@),
            toks == tokenize_spec(text@),
            tw == tokens_width(toks),
            tw == visible_width_spec(text@),
            rest_cs@ == rest_indent@,
            rest_indent_width == visible_width_spec(rest_indent@),
            first_indent_width == visible_width_spec(first_indent@),
            text_width == tw,
            text_width <= 3 * usize::MAX,
            first_indent_width <= 3 * usize::MAX,
            rest_indent_width <= 3 * usize::MAX,
            max == max_width as nat,
            current_line_width <= (if is_first_line { first_indent_width } else { rest_indent_width })
                + tokens_width(toks.take(k as int)),
            lines@.len() == lines_v.len(),
            forall|j: int| 0 <= j < lines_v.len() ==> #[trigger] lines@[j]@ == lines_v[j],
            wrap_run(
                toks,
                k as int,
                max,
                rest_indent@,
                rest_indent_width as nat,
                lines_v,
                current_line@,
                current_line_width as nat,
                is_first_line,
                has_content_on_line,
                active@,
            ) == wrap_run(
                toks,
                0,
                max,
                rest_indent@,
                visible_width_spec(rest_indent@),
                Seq::empty(),
                first_indent@,
                visible_width_spec(first_indent@),
                true,
                false,
                Seq::empty(),
            ),
        decreases tokens@.len() - k,
    {
        let ghost t = toks[k as int];
        proof {
            assert(toks.take(k + 1).drop_last() == toks.take(k as int));
            lemma_tokens_width_append(toks.take(k + 1), toks.skip(k + 1));
            assert(toks.take(k + 1) + toks.skip(k + 1) == toks);
            assert(tokens@[k as int].view_tok() == t);
        }
        let token = &tokens[k];
        if token.is_whitespace {
            if has_content_on_line {
                push_all(&mut current_line, token.raw.as_slice());
                current_line_width = current_line_width + token.visible_width;
                update_style(&mut active, &token.raw);
            }
        } else {
            if has_content_on_line && current_line_width + token.visible_width > max_width as u128 {
                let mut done = trim_trailing_chars(&current_line);
                if active.len() > 0 {
                    push_str(&mut done, "\x1b[0m");
                }
                let line = string_of(done.as_slice());
                proof {
                    lines_v = lines_v.push(done@);
                }
                lines.push(line);
                current_line = chars_of(rest_indent);
                push_all(&mut current_line, active.as_slice());
                current_line_width = rest_indent_width;
                is_first_line = false;
            }
            push_all(&mut current_line, token.raw.as_slice());
            current_line_width = current_line_width + token.visible_width;
            has_content_on_line = true;
            update_style(&mut active, &token.raw);
        }
        k += 1;
    }
    if has_content_on_line || is_first_line && current_line.len() > 0 {
        let done = trim_trailing_chars(&current_line);
        let line = string_of(done.as_slice());
        proof {
            lines_v = lines_v.push(done@);
        }
        lines.push(line);
    }
    if lines.len() == 0 {
        let line = string_of(chars_of(first_indent).as_slice());
        proof {
            lines_v = lines_v.push(first_indent@);
        }
        lines.push(line);
    }
    proof {
        assert(lines_v == wrap_spec(text@, max_width as nat, first_indent@, rest_indent@));
    }
    lines
}

/// Whether a line holds nothing but white space.
pub open spec fn is_blank_line(l: Seq<char>) -> bool {
    forall|i: int| 0 <= i < l.len() ==> #[trigger] is_ws(l[i])
}

/// Lines from index `k` on, folded into `out`: content lines are kept,
/// a run of blank lines between two content lines becomes one empty line,
/// and blank lines before the first or after the last content line vanish.
pub open spec fn collapse_run(ls: Seq<Seq<char>>, k: int, out: Seq<Seq<char>>, pending: bool) -> Seq<Seq<char>>
    decreases ls.len() - k,
{
    if k < 0 || k >= ls.len() {
        out
    } else if is_blank_line(ls[k]) {
        collapse_run(ls, k + 1, out, true)
    } else {
        let out2 = if pending && out.len() > 0 { out.push(Seq::empty()) } else { out };
        collapse_run(ls, k + 1, out2.push(ls[k]), false)
    }
}

/// The lines with blank runs collapsed (see `collapse_run`).
pub open spec fn collapse_spec(ls: Seq<Seq<char>>) -> Seq<Seq<char>> {
    collapse_run(ls, 0, Seq::empty(), false)
}

/// No two neighbouring lines are both blank, and neither the first nor the
/// last line is blank.
pub open spec fn blank_runs_collapsed(ls: Seq<Seq<char>>) -> bool {
    &&& forall|i: int| 0 <= i < ls.len() - 1 ==> !(is_blank_line(#[trigger] ls[i]) && is_blank_line(ls[i + 1]))
    &&& ls.len() > 0 ==> !is_blank_line(ls[0]) && !is_blank_line(ls.last())
}

/// Every blank line is empty.
pub open spec fn blanks_empty(ls: Seq<Seq<char>>) -> bool {
    forall|i: int| 0 <= i < ls.len() && is_blank_line(#[trigger] ls[i]) ==> ls[i].len() == 0
}

/// Whether a line holds something besides white space.
pub open spec fn has_content(l: Seq<char>) -> bool {
    !is_blank_line(l)
}

proof fn lemma_filter_push(s: Seq<Seq<char>>, x: Seq<char>)
    ensures
        s.push(x).filter(|l: Seq<char>| has_content(l)) == if has_content(x) {
            s.filter(|l: Seq<char>| has_content(l)).push(x)
        } else {
            s.filter(|l: Seq<char>| has_content(l))
        },
{
    reveal(Seq::filter);
    assert(s.push(x).drop_last() =~= s);
}

proof fn lemma_collapse_run(ls: Seq<Seq<char>>, k: int, out: Seq<Seq<char>>, pending: bool)
    requires
        0 <= k <= ls.len(),
        blank_runs_collapsed(out),
        blanks_empty(out),
    ensures
        blank_runs_collapsed(collapse_run(ls, k, out, pending)),
        blanks_empty(collapse_run(ls, k, out, pending)),
        collapse_run(ls, k, out, pending).filter(|l: Seq<char>| has_content(l))
            == out.filter(|l: Seq<char>| has_content(l)) + ls.subrange(k, ls.len() as int).filter(
            |l: Seq<char>| has_content(l),
        ),
    decreases ls.len() - k,
{
    let nb = |l: Seq<char>| has_content(l);
    let tail = ls.subrange(k, ls.len() as int);
    if k == ls.len() {
        assert(tail =~= Seq::<Seq<char>>::empty());
        reveal(Seq::filter);
        assert(out.filter(nb) + tail.filter(nb) =~= out.filter(nb));
    } else {
        let rest = ls.subrange(k + 1, ls.len() as int);
        assert(tail =~= seq![ls[k]] + rest);
        Seq::filter_distributes_over_add(seq![ls[k]], rest, nb);
        lemma_filter_push(Seq::<Seq<char>>::empty(), ls[k]);
        assert(Seq::<Seq<char>>::empty().push(ls[k]) =~= seq![ls[k]]);
        reveal(Seq::filter);
        assert(Seq::<Seq<char>>::empty().filter(nb) =~= Seq::<Seq<char>>::empty());
        if is_blank_line(ls[k]) {
            lemma_collapse_run(ls, k + 1, out, true);
            assert(seq![ls[k]].filter(nb) =~= Seq::<Seq<char>>::empty());
            assert(out.filter(nb) + tail.filter(nb) =~= out.filter(nb) + rest.filter(nb));
        } else {
            let out2 = if pending && out.len() > 0 { out.push(Seq::empty()) } else { out };
            let out3 = out2.push(ls[k]);
            let e = Seq::<char>::empty();
            assert(is_blank_line(e));
            assert(blank_runs_collapsed(out3)) by {
                assert forall|i: int| 0 <= i < out3.len() - 1 implies !(is_blank_line(#[trigger] out3[i]) && is_blank_line(out3[i + 1])) by {
                    if i + 1 == out3.len() - 1 {
                    } else if pending && out.len() > 0 && i + 1 == out.len() {
                        assert(out3[i] == out.last());
                    } else {
                        assert(out3[i] == out[i]);
                        assert(out3[i + 1] == out[i + 1]);
                    }
                }
                if out.len() > 0 {
                    assert(out3[0] == out[0]);
                }
            }
            assert(blanks_empty(out3)) by {
                assert forall|i: int| 0 <= i < out3.len() && is_blank_line(#[trigger] out3[i]) implies out3[i].len() == 0 by {
                    if i < out.len() {
                        assert(out3[i] == out[i]);
                    }
                }
            }
            lemma_collapse_run(ls, k + 1, out3, false);
            lemma_filter_push(out2, ls[k]);
            if pending && out.len() > 0 {
                lemma_filter_push(out, e);
            }
            assert(seq![ls[k]].filter(nb) =~= seq![ls[k]]);
            assert(out3.filter(nb) =~= out.filter(nb).push(ls[k]));
            assert(out.filter(nb) + tail.filter(nb) =~= out3.filter(nb) + rest.filter(nb));
        }
    }
}

/// The state `collapse_run` reaches at line `k` of an already collapsed
/// sequence: the lines before `k`, the last one held back when blank.
pub open spec fn collapsed_prefix(c: Seq<Seq<char>>, k: int) -> (Seq<Seq<char>>, bool) {
    if k > 0 && is_blank_line(c[k - 1]) {
        (c.take(k - 1), true)
    } else {
        (c.take(k), false)
    }
}

proof fn lemma_collapse_collapsed(c: Seq<Seq<char>>, k: int)
    requires
        blank_runs_collapsed(c),
        blanks_empty(c),
        0 <= k <= c.len(),
    ensures
        collapse_run(c, k, collapsed_prefix(c, k).0, collapsed_prefix(c, k).1) == c,
    decreases c.len() - k,
{
    if k == c.len() {
        if k > 0 {
            assert(!is_blank_line(c[k - 1]));
        }
        assert(c.take(k) =~= c);
    } else if is_blank_line(c[k]) {
        assert(k > 0);
        assert(!is_blank_line(c[k - 1]));
        lemma_collapse_collapsed(c, k + 1);
    } else {
        if k > 0 && is_blank_line(c[k - 1]) {
            assert(k - 1 > 0);
            assert(c[k - 1].len() == 0);
            assert(c[k - 1] =~= Seq::<char>::empty());
            assert(c.take(k - 1).push(Seq::empty()) =~= c.take(k));
        }
        assert(c.take(k).push(c[k]) =~= c.take(k + 1));
        lemma_collapse_collapsed(c, k + 1);
    }
}

/// Collapsing leaves no run of blank lines and no blank line at either
/// end, keeps every line with content in its order, and changes nothing
/// when applied a second time.
pub proof fn law_collapse_blank_lines(ls: Seq<Seq<char>>)
    ensures
        blank_runs_collapsed(collapse_spec(ls)),
        collapse_spec(ls).filter(|l: Seq<char>| has_content(l)) == ls.filter(|l: Seq<char>| has_content(l)),
        collapse_spec(collapse_spec(ls)) == collapse_spec(ls),
{
    reveal(Seq::filter);
    assert(Seq::<Seq<char>>::empty().filter(|l: Seq<char>| has_content(l)) =~= Seq::<Seq<char>>::empty());
    lemma_collapse_run(ls, 0, Seq::empty(), false);
    assert(ls.subrange(0, ls.len() as int) =~= ls);
    assert(Seq::<Seq<char>>::empty() + ls.filter(|l: Seq<char>| has_content(l)) =~= ls.filter(|l: Seq<char>| has_content(l)));
    let c = collapse_spec(ls);
    lemma_collapse_collapsed(c, 0);
    assert(c.take(0) =~= Seq::<Seq<char>>::empty());
}

fn is_blank_line_exec(l: &str) -> (b: bool)
    ensures
        b == is_blank_line(l@),
{
    let cs = chars_of(l);
    let mut i: usize = 0;
    while i < cs.len()
        invariant
            i <= cs@.len(),
            cs@ == l@,
            forall|j: int| 0 <= j < i ==> #[trigger] is_ws(cs@[j]),
        decreases cs@.len() - i,
    {
        if !is_ws_exec(cs[i]) {
            return false;
        }
        i += 1;
    }
    true
}

/// Collapses runs of blank lines to a single empty line and drops blank
/// lines at the start and the end.
pub fn collapse_blank_lines(lines: Vec<String>) -> (out: Vec<String>)
    ensures
        strings_view(out@) == collapse_spec(strings_view(lines@)),
{
    let ghost ls = strings_view(lines@);
    let mut out: Vec<String> = Vec::new();
    let mut pending = false;
    let mut k: usize = 0;
    assert(strings_view(out@) =~= Seq::<Seq<char>>::empty());
    while k < lines.len()
        invariant
            k <= lines@.len(),
            ls == strings_view(lines@),
            collapse_run(ls, k as int, strings_view(out@), pending) == collapse_spec(ls),
        decreases lines@.len() - k,
    {
        assert(ls[k as int] == lines@[k as int]@);
        if is_blank_line_exec(lines[k].as_str()) {
            pending = true;
        } else {
            if pending && out.len() > 0 {
                let ghost before = strings_view(out@);
                out.push(String::new());
                assert(strings_view(out@) == before.push(Seq::<char>::empty()));
            }
            let ghost before = strings_view(out@);
            let line = lines[k].clone();
            out.push(line);
            assert(strings_view(out@) == before.push(ls[k as int]));
            pending = false;
        }
        k += 1;
    }
    out
}

/// The hanging indent of a line: nothing before the first line; after it,
/// the line's own leading blanks, widened past a `-`, `*` or `+` bullet.
pub open spec fn leading_blanks(s: Seq<char>) -> nat
    decreases s.len(),
{
    if s.len() > 0 && is_blank(s[0]) {
        1 + leading_blanks(s.drop_first())
    } else {
        0
    }
}

/// Width of a bullet marker (`- `, `* ` or `+ `) at the start of `t`.
pub open spec fn bullet_len(t: Seq<char>) -> nat {
    if t.len() >= 2 && (t[0] == '-' || t[0] == '*' || t[0] == '+') && t[1] == ' ' {
        2
    } else {
        0
    }
}

/// First-line and continuation indents for wrapping `s`.
pub open spec fn smart_indent_spec(s: Seq<char>) -> (Seq<char>, Seq<char>) {
    let n = leading_blanks(s);
    (Seq::empty(), s.take(n as int) + repeat_char(' ', bullet_len(s.skip(n as int))))
}

proof fn lemma_leading_blanks(s: Seq<char>)
    ensures
        leading_blanks(s) <= s.len(),
        forall|i: int| 0 <= i < leading_blanks(s) ==> #[trigger] is_blank(s[i]),
        leading_blanks(s) < s.len() ==> !is_blank(s[leading_blanks(s) as int]),
    decreases s.len(),
{
    if s.len() > 0 && is_blank(s[0]) {
        lemma_leading_blanks(s.drop_first());
        assert forall|i: int| 0 <= i < leading_blanks(s) implies #[trigger] is_blank(s[i]) by {
            if i > 0 {
                assert(s[i] == s.drop_first()[i - 1]);
            }
        }
    }
}

/// Computes the hanging indents for wrapping a line of text or code.
pub fn compute_smart_indent(text: &str) -> (res: (String, String))
    ensures
        res.0@ == smart_indent_spec(text@).0,
        res.1@ == smart_indent_spec(text@).1,
{
    let cs = chars_of(text);
    let mut n: usize = 0;
    while n < cs.len() && (cs[n] == ' ' || cs[n] == '\t')
        invariant
            n <= cs@.len(),
            forall|i: int| 0 <= i < n ==> #[trigger] is_blank(cs@[i]),
        decreases cs@.len() - n,
    {
        n += 1;
    }
    proof {
        lemma_leading_blanks(cs@);
        let m = leading_blanks(cs@) as int;
        if m < n {
            assert(is_blank(cs@[m]));
        } else if n < m {
            assert(is_blank(cs@[n as int]));
        }
    }
    let mut rest: Vec<char> = Vec::new();
    let mut k: usize = 0;
    while k < n
        invariant
            k <= n <= cs@.len(),
            rest@ == cs@.take(k as int),
        decreases n - k,
    {
        rest.push(cs[k]);
        k += 1;
        assert(cs@.take(k as int) == cs@.take(k - 1).push(cs@[k - 1]));
    }
    let bullet: usize = if cs.len() >= 2 && n <= cs.len() - 2 && (cs[n] == '-' || cs[n] == '*' || cs[n] == '+') && cs[n + 1] == ' ' {
        2
    } else {
        0
    };
    assert(bullet == bullet_len(cs@.skip(n as int)));
    push_repeat(&mut rest, ' ', bullet);
    let first = String::new();
    (first, string_of(rest.as_slice()))
}

} // verus!
