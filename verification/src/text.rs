//! Character-level helpers shared by the rendering modules.

use vstd::prelude::*;

verus! {

/// The characters of a string slice, in order.
#[verifier::external_body]
pub(crate) fn chars_of(s: &str) -> (v: Vec<char>)
    ensures
        v@ == s@,
{
    s.chars().collect()
}

/// A string holding exactly the given characters.
#[verifier::external_body]
pub(crate) fn string_of(v: &[char]) -> (s: String)
    ensures
        s@ == v@,
{
    v.iter().collect()
}

/// Appends all characters of `src` to `dst`.
pub(crate) fn push_all(dst: &mut Vec<char>, src: &[char])
    ensures
        final(dst)@ == old(dst)@ + src@,
{
    let mut i: usize = 0;
    while i < src.len()
        invariant
            i <= src@.len(),
            dst@ == old(dst)@ + src@.take(i as int),
        decreases src@.len() - i,
    {
        dst.push(src[i]);
        i += 1;
        assert(src@.take(i as int) == src@.take(i - 1) + seq![src@[i - 1]]);
    }
    assert(src@.take(src@.len() as int) == src@);
}

/// The first `k` characters.
pub(crate) fn take_chars(src: &Vec<char>, k: usize) -> (out: Vec<char>)
    requires
        k <= src@.len(),
    ensures
        out@ == src@.take(k as int),
{
    let mut out: Vec<char> = Vec::new();
    let mut i: usize = 0;
    while i < k
        invariant
            i <= k <= src@.len(),
            out@ == src@.take(i as int),
        decreases k - i,
    {
        out.push(src[i]);
        i += 1;
        assert(src@.take(i as int) == src@.take(i - 1).push(src@[i - 1]));
    }
    out
}

/// Appends the characters of a string slice to `dst`.
pub(crate) fn push_str(dst: &mut Vec<char>, src: &str)
    ensures
        final(dst)@ == old(dst)@ + src@,
{
    let cs = chars_of(src);
    push_all(dst, cs.as_slice());
}

/// The views of a sequence of character vectors.
pub open spec fn vecs_view(v: Seq<Vec<char>>) -> Seq<Seq<char>> {
    v.map_values(|l: Vec<char>| l@)
}

/// The views of a sequence of strings.
pub open spec fn strings_view(v: Seq<String>) -> Seq<Seq<char>> {
    v.map_values(|l: String| l@)
}

/// `s` cut at every newline: the pieces between newlines, in order
/// (a text of `n` newlines has `n + 1` pieces).
pub open spec fn split_lines(s: Seq<char>) -> Seq<Seq<char>>
    decreases s.len(),
{
    if s.len() == 0 {
        seq![Seq::empty()]
    } else if s.last() == '\n' {
        split_lines(s.drop_last()).push(Seq::empty())
    } else {
        let ls = split_lines(s.drop_last());
        ls.update(ls.len() - 1, ls.last().push(s.last()))
    }
}

/// Pieces joined with a newline between each two.
pub open spec fn join_lines(ls: Seq<Seq<char>>) -> Seq<char>
    decreases ls.len(),
{
    if ls.len() == 0 {
        Seq::empty()
    } else if ls.len() == 1 {
        ls[0]
    } else {
        join_lines(ls.drop_last()) + seq!['\n'] + ls.last()
    }
}

/// A split has at least one piece.
pub proof fn lemma_split_lines_nonempty(s: Seq<char>)
    ensures
        split_lines(s).len() >= 1,
    decreases s.len(),
{
    if s.len() > 0 {
        lemma_split_lines_nonempty(s.drop_last());
    }
}

/// Joining the pieces of a split gives back the text.
pub proof fn lemma_join_split(s: Seq<char>)
    ensures
        join_lines(split_lines(s)) == s,
    decreases s.len(),
{
    if s.len() > 0 {
        let p = s.drop_last();
        lemma_join_split(p);
        lemma_split_lines_nonempty(p);
        let ls = split_lines(p);
        if s.last() == '\n' {
            let ls2 = ls.push(Seq::<char>::empty());
            assert(ls2.drop_last() == ls);
            assert(join_lines(ls2) == join_lines(ls) + seq!['\n'] + Seq::<char>::empty());
            assert(s == p.push('\n'));
        } else {
            let ls2 = ls.update(ls.len() - 1, ls.last().push(s.last()));
            if ls.len() == 1 {
                assert(join_lines(ls2) == ls2[0]);
                assert(s == p.push(s.last()));
            } else {
                assert(ls2.drop_last() == ls.drop_last());
                assert(join_lines(ls) == join_lines(ls.drop_last()) + seq!['\n'] + ls.last());
                assert(s == p.push(s.last()));
            }
        }
    }
}

/// Whether `s` holds no newline.
pub open spec fn no_newline(s: Seq<char>) -> bool {
    forall|i: int| 0 <= i < s.len() ==> #[trigger] s[i] != '\n'
}

/// No piece of a split holds a newline.
pub proof fn lemma_split_pieces_plain(s: Seq<char>)
    ensures
        forall|j: int| 0 <= j < split_lines(s).len() ==> no_newline(#[trigger] split_lines(s)[j]),
    decreases s.len(),
{
    if s.len() > 0 {
        lemma_split_pieces_plain(s.drop_last());
        lemma_split_lines_nonempty(s.drop_last());
        let ls = split_lines(s.drop_last());
        if s.last() != '\n' {
            let l2 = ls.last().push(s.last());
            assert(no_newline(l2)) by {
                assert(no_newline(ls[ls.len() - 1]));
                assert forall|i: int| 0 <= i < l2.len() implies #[trigger] l2[i] != '\n' by {
                    if i < ls.last().len() {
                        assert(l2[i] == ls[ls.len() - 1][i]);
                    }
                }
            }
        } else {
            assert(no_newline(Seq::<char>::empty()));
        }
    }
}

proof fn lemma_split_append_plain(x: Seq<char>, y: Seq<char>)
    requires
        no_newline(y),
    ensures
        split_lines(x + y) == split_lines(x).update(
            split_lines(x).len() - 1,
            split_lines(x).last() + y,
        ),
    decreases y.len(),
{
    lemma_split_lines_nonempty(x);
    if y.len() == 0 {
        assert(x + y =~= x);
        assert(split_lines(x).last() + y =~= split_lines(x).last());
        assert(split_lines(x).update(split_lines(x).len() - 1, split_lines(x).last()) =~= split_lines(x));
    } else {
        let y0 = y.drop_last();
        assert(no_newline(y0)) by {
            assert forall|i: int| 0 <= i < y0.len() implies #[trigger] y0[i] != '\n' by {
                assert(y0[i] == y[i]);
            }
        }
        lemma_split_append_plain(x, y0);
        assert((x + y).drop_last() =~= x + y0);
        assert((x + y).last() == y.last());
        assert(y.last() != '\n');
        lemma_split_lines_nonempty(x + y0);
        assert(split_lines(x).last() + y =~= (split_lines(x).last() + y0).push(y.last()));
        assert(split_lines(x + y) =~= split_lines(x).update(split_lines(x).len() - 1, split_lines(x).last() + y));
    }
}

/// Splitting pieces joined by newlines gives the pieces back, when no
/// piece holds a newline.
pub proof fn lemma_split_join(ls: Seq<Seq<char>>)
    requires
        ls.len() >= 1,
        forall|j: int| 0 <= j < ls.len() ==> no_newline(#[trigger] ls[j]),
    ensures
        split_lines(join_lines(ls)) == ls,
    decreases ls.len(),
{
    if ls.len() == 1 {
        lemma_split_append_plain(Seq::empty(), ls[0]);
        assert(Seq::<char>::empty() + ls[0] =~= ls[0]);
        assert(split_lines(Seq::<char>::empty()) =~= seq![Seq::<char>::empty()]);
        assert(Seq::<char>::empty() + ls[0] =~= ls[0]);
        assert(seq![Seq::<char>::empty()].update(0, Seq::<char>::empty() + ls[0]) =~= ls);
    } else {
        let init = ls.drop_last();
        assert forall|j: int| 0 <= j < init.len() implies no_newline(#[trigger] init[j]) by {
            assert(init[j] == ls[j]);
        }
        lemma_split_join(init);
        let j0 = join_lines(init);
        assert(no_newline(ls[ls.len() - 1]));
        lemma_split_append_plain(j0.push('\n'), ls.last());
        assert(j0 + seq!['\n'] + ls.last() =~= j0.push('\n') + ls.last());
        assert(j0.push('\n').drop_last() =~= j0);
        assert(split_lines(j0.push('\n')) == init.push(Seq::empty()));
        assert(Seq::<char>::empty() + ls.last() =~= ls.last());
        assert(init.push(Seq::empty()).update(init.len() as int, ls.last()) =~= ls);
    }
}

/// Splits a character sequence at its newlines.
pub(crate) fn split_lines_exec(cs: &[char]) -> (lines: Vec<Vec<char>>)
    ensures
        vecs_view(lines@) == split_lines(cs@),
{
    let mut lines: Vec<Vec<char>> = Vec::new();
    let mut cur: Vec<char> = Vec::new();
    let mut i: usize = 0;
    assert(cs@.take(0) =~= Seq::<char>::empty());
    assert(vecs_view(lines@).push(cur@) =~= split_lines(cs@.take(0)));
    while i < cs.len()
        invariant
            i <= cs@.len(),
            vecs_view(lines@).push(cur@) == split_lines(cs@.take(i as int)),
        decreases cs@.len() - i,
    {
        let c = cs[i];
        let ghost before = vecs_view(lines@);
        proof {
            assert(cs@.take(i + 1).drop_last() == cs@.take(i as int));
            assert(cs@.take(i + 1).last() == c);
        }
        if c == '\n' {
            let done = cur;
            cur = Vec::new();
            lines.push(done);
            assert(vecs_view(lines@) == before.push(done@));
        } else {
            let ghost oc = cur@;
            cur.push(c);
            let ghost ls = before.push(oc);
            assert(ls.last() == oc);
            assert(before.push(cur@) =~= ls.update(ls.len() - 1, ls.last().push(c)));
        }
        i += 1;
    }
    assert(cs@.take(cs@.len() as int) == cs@);
    let ghost before = vecs_view(lines@);
    lines.push(cur);
    assert(vecs_view(lines@) == before.push(cur@));
    lines
}

/// Joins character sequences with a newline between each two.
pub(crate) fn join_lines_exec(lines: &Vec<Vec<char>>) -> (out: Vec<char>)
    ensures
        out@ == join_lines(vecs_view(lines@)),
{
    let mut out: Vec<char> = Vec::new();
    let mut k: usize = 0;
    while k < lines.len()
        invariant
            k <= lines@.len(),
            out@ == join_lines(vecs_view(lines@).take(k as int)),
        decreases lines@.len() - k,
    {
        let ghost prefix = vecs_view(lines@).take(k as int);
        proof {
            let next = vecs_view(lines@).take(k + 1);
            assert(next.drop_last() == prefix);
            assert(next.last() == lines@[k as int]@);
        }
        if k > 0 {
            out.push('\n');
        }
        push_all(&mut out, lines[k].as_slice());
        k += 1;
    }
    assert(vecs_view(lines@).take(lines@.len() as int) == vecs_view(lines@));
    out
}

/// `n` copies of a character.
pub open spec fn repeat_char(c: char, n: nat) -> Seq<char> {
    Seq::new(n, |_i: int| c)
}

/// `n` copies of a character (as `str::repeat` on a one-character string).
pub(crate) fn push_repeat(dst: &mut Vec<char>, c: char, n: usize)
    ensures
        final(dst)@ == old(dst)@ + repeat_char(c, n as nat),
{
    let mut k: usize = 0;
    while k < n
        invariant
            k <= n,
            dst@ == old(dst)@ + repeat_char(c, k as nat),
        decreases n - k,
    {
        dst.push(c);
        k += 1;
        assert(repeat_char(c, k as nat) == repeat_char(c, (k - 1) as nat).push(c));
    }
}

/// `n` copies of a character, for a count that may exceed `usize`.
pub(crate) fn push_repeat_wide(dst: &mut Vec<char>, c: char, n: u128)
    ensures
        final(dst)@ == old(dst)@ + repeat_char(c, n as nat),
{
    let mut k: u128 = 0;
    while k < n
        invariant
            k <= n,
            dst@ == old(dst)@ + repeat_char(c, k as nat),
        decreases n - k,
    {
        dst.push(c);
        k += 1;
        assert(repeat_char(c, k as nat) == repeat_char(c, (k - 1) as nat).push(c));
    }
}

/// Appends strings to a vector of lines.
pub(crate) fn append_lines(dst: &mut Vec<String>, src: &Vec<String>)
    ensures
        strings_view(final(dst)@) == strings_view(old(dst)@) + strings_view(src@),
{
    let ghost s0 = strings_view(src@);
    let mut k: usize = 0;
    let n = src.len();
    let ghost start = strings_view(dst@);
    while k < n
        invariant
            k <= n,
            n == src@.len(),
            s0 == strings_view(src@),
            strings_view(dst@) == start + s0.take(k as int),
        decreases n - k,
    {
        let line = src[k].clone();
        let ghost before = strings_view(dst@);
        dst.push(line);
        assert(strings_view(dst@) == before.push(s0[k as int]));
        k += 1;
        assert(s0.take(k as int) == s0.take(k - 1).push(s0[k - 1]));
    }
    assert(s0.take(n as int) == s0);
}

/// The decimal digits of a number, most significant first, with no leading zero.
pub open spec fn decimal(n: nat) -> Seq<char>
    decreases n,
{
    if n < 10 {
        seq![digit_char(n)]
    } else {
        decimal(n / 10).push(digit_char(n % 10))
    }
}

/// The ASCII digit of a value below ten.
pub open spec fn digit_char(d: nat) -> char {
    if d == 0 { '0' }
    else if d == 1 { '1' }
    else if d == 2 { '2' }
    else if d == 3 { '3' }
    else if d == 4 { '4' }
    else if d == 5 { '5' }
    else if d == 6 { '6' }
    else if d == 7 { '7' }
    else if d == 8 { '8' }
    else { '9' }
}

fn digit_char_exec(d: usize) -> (c: char)
    requires
        d < 10,
    ensures
        c == digit_char(d as nat),
{
    if d == 0 { '0' }
    else if d == 1 { '1' }
    else if d == 2 { '2' }
    else if d == 3 { '3' }
    else if d == 4 { '4' }
    else if d == 5 { '5' }
    else if d == 6 { '6' }
    else if d == 7 { '7' }
    else if d == 8 { '8' }
    else { '9' }
}

/// The decimal digits of a number (as its `Display` form).
pub(crate) fn decimal_exec(n: usize) -> (out: Vec<char>)
    ensures
        out@ == decimal(n as nat),
    decreases n,
{
    if n < 10 {
        let mut out: Vec<char> = Vec::new();
        out.push(digit_char_exec(n));
        assert(out@ == seq![digit_char(n as nat)]);
        out
    } else {
        let mut out = decimal_exec(n / 10);
        out.push(digit_char_exec(n % 10));
        out
    }
}

proof fn lemma_decimal_len(n: nat)
    ensures
        decimal(n).len() >= 1,
        n < 10 ==> decimal(n).len() == 1,
        n >= 10 ==> decimal(n).len() == decimal(n / 10).len() + 1,
    decreases n,
{
    if n >= 10 {
        lemma_decimal_len(n / 10);
    }
}

/// Whether a character is an ASCII decimal digit.
pub open spec fn is_digit(c: char) -> bool {
    '0' <= c && c <= '9'
}

/// The value of an ASCII digit.
pub open spec fn digit_value(c: char) -> nat {
    ((c as u32) - ('0' as u32)) as nat
}

/// The number written by a sequence of decimal digits (0 for no digits).
pub open spec fn digits_value(s: Seq<char>) -> nat
    decreases s.len(),
{
    if s.len() == 0 {
        0
    } else {
        digits_value(s.drop_last()) * 10 + digit_value(s.last())
    }
}

/// Whether every character is an ASCII digit.
pub open spec fn all_digits(t: Seq<char>) -> bool {
    forall|i: int| 0 <= i < t.len() ==> #[trigger] is_digit(t[i])
}

/// The digits of an unsigned number: the text after an optional leading `+`.
pub open spec fn unsigned_body(s: Seq<char>) -> Seq<char> {
    if s.len() > 0 && s[0] == '+' { s.drop_first() } else { s }
}

/// What `str::parse::<usize>` gives: an optional `+`, then one or more
/// ASCII digits whose value fits in `usize`; anything else is an error.
pub open spec fn parse_usize_spec(s: Seq<char>) -> Option<nat> {
    let body = unsigned_body(s);
    if body.len() > 0 && all_digits(body) && digits_value(body) <= usize::MAX {
        Some(digits_value(body))
    } else {
        None
    }
}

proof fn lemma_digits_value_grows(s: Seq<char>, i: int)
    requires
        0 <= i <= s.len(),
    ensures
        digits_value(s.take(i)) <= digits_value(s),
    decreases s.len() - i,
{
    if i < s.len() {
        lemma_digits_value_grows(s, i + 1);
        assert(s.take(i + 1).drop_last() == s.take(i));
    } else {
        assert(s.take(i) == s);
    }
}

/// Parses a decimal `usize` as `str::parse::<usize>` does.
pub fn parse_usize(s: &str) -> (res: Option<usize>)
    ensures
        match parse_usize_spec(s@) {
            Some(n) => res == Some(n as usize),
            None => res is None,
        },
{
    let cs = chars_of(s);
    let start: usize = if cs.len() > 0 && cs[0] == '+' { 1 } else { 0 };
    let ghost body = if cs@.len() > 0 && cs@[0] == '+' { cs@.drop_first() } else { cs@ };
    assert(body == cs@.skip(start as int));
    if start >= cs.len() {
        return None;
    }
    let mut value: u128 = 0;
    let mut i = start;
    while i < cs.len()
        invariant
            start <= i <= cs@.len(),
            cs@ == s@,
            body == unsigned_body(cs@),
            body == cs@.skip(start as int),
            value == digits_value(body.take(i - start)),
            value <= usize::MAX,
            forall|k: int| 0 <= k < i - start ==> #[trigger] is_digit(body[k]),
        decreases cs@.len() - i,
    {
        let c = cs[i];
        assert(body[i - start] == c);
        if !('0' <= c && c <= '9') {
            assert(!is_digit(body[i - start]));
            return None;
        }
        let d = (c as u32 - '0' as u32) as u128;
        proof {
            let t = body.take(i - start + 1);
            assert(t.drop_last() == body.take(i - start));
            assert(t.last() == c);
        }
        value = value * 10 + d;
        i += 1;
        assert(value == digits_value(body.take(i - start)));
        if value > usize::MAX as u128 {
            proof {
                lemma_digits_value_grows(body, i - start);
                assert(digits_value(body) > usize::MAX);
            }
            return None;
        }
    }
    assert(body.take(i - start) == body);
    assert(all_digits(body));
    Some(value as usize)
}

/// Unicode `White_Space`, the characters `char::is_whitespace` accepts.
pub open spec fn is_ws(c: char) -> bool {
    let u = c as u32;
    (0x9 <= u && u <= 0xd) || u == 0x20 || u == 0x85 || u == 0xa0 || u == 0x1680
        || (0x2000 <= u && u <= 0x200a) || u == 0x2028 || u == 0x2029 || u == 0x202f
        || u == 0x205f || u == 0x3000
}

pub fn is_ws_exec(c: char) -> (b: bool)
    ensures
        b == is_ws(c),
{
    let u = c as u32;
    (0x9 <= u && u <= 0xd) || u == 0x20 || u == 0x85 || u == 0xa0 || u == 0x1680
        || (0x2000 <= u && u <= 0x200a) || u == 0x2028 || u == 0x2029 || u == 0x202f
        || u == 0x205f || u == 0x3000
}

/// `s` without leading white space.
pub open spec fn trim_start_ws(s: Seq<char>) -> Seq<char>
    decreases s.len(),
{
    if s.len() > 0 && is_ws(s[0]) {
        trim_start_ws(s.drop_first())
    } else {
        s
    }
}

/// `s` without trailing white space.
pub open spec fn trim_end_ws(s: Seq<char>) -> Seq<char>
    decreases s.len(),
{
    if s.len() > 0 && is_ws(s.last()) {
        trim_end_ws(s.drop_last())
    } else {
        s
    }
}

/// `s` without leading or trailing white space (as `str::trim`).
pub open spec fn trim_ws(s: Seq<char>) -> Seq<char> {
    trim_end_ws(trim_start_ws(s))
}

/// Removes leading and trailing white space, as `str::trim` does.
pub(crate) fn trim_chars(cs: &Vec<char>) -> (out: Vec<char>)
    ensures
        out@ == trim_ws(cs@),
{
    let mut a: usize = 0;
    assert(cs@.skip(0) == cs@);
    while a < cs.len() && is_ws_exec(cs[a])
        invariant
            a <= cs@.len(),
            trim_start_ws(cs@.skip(a as int)) == trim_start_ws(cs@),
        decreases cs@.len() - a,
    {
        assert(cs@.skip(a as int).drop_first() == cs@.skip(a + 1));
        a += 1;
    }
    let ghost start = cs@.skip(a as int);
    assert(a < cs@.len() ==> start[0] == cs@[a as int]);
    assert(trim_start_ws(start) == start);
    let mut b: usize = cs.len();
    assert(cs@.subrange(a as int, b as int) == start);
    while b > a && is_ws_exec(cs[b - 1])
        invariant
            a <= b <= cs@.len(),
            start == cs@.skip(a as int),
            trim_end_ws(cs@.subrange(a as int, b as int)) == trim_end_ws(start),
        decreases b,
    {
        assert(cs@.subrange(a as int, b as int).drop_last() == cs@.subrange(a as int, b - 1));
        b -= 1;
    }
    assert(b > a ==> cs@.subrange(a as int, b as int).last() == cs@[b - 1]);
    assert(trim_end_ws(cs@.subrange(a as int, b as int)) == cs@.subrange(a as int, b as int));
    let mut out: Vec<char> = Vec::new();
    let mut k = a;
    while k < b
        invariant
            a <= k <= b <= cs@.len(),
            out@ == cs@.subrange(a as int, k as int),
        decreases b - k,
    {
        out.push(cs[k]);
        k += 1;
        assert(cs@.subrange(a as int, k as int) == cs@.subrange(a as int, k - 1).push(cs@[k - 1]));
    }
    out
}

/// `s` with every occurrence of `pat` (scanned left to right, without
/// overlap) replaced by `rep`, as `str::replace` does for a non-empty pattern.
pub open spec fn replace_all(s: Seq<char>, pat: Seq<char>, rep: Seq<char>) -> Seq<char>
    decreases s.len(),
{
    if pat.len() == 0 || s.len() < pat.len() {
        s
    } else if s.take(pat.len() as int) == pat {
        rep + replace_all(s.skip(pat.len() as int), pat, rep)
    } else {
        seq![s[0]] + replace_all(s.drop_first(), pat, rep)
    }
}

/// Whether `pat` occurs in `s` at index `i`.
pub(crate) fn matches_at(s: &Vec<char>, i: usize, pat: &Vec<char>) -> (b: bool)
    requires
        i <= s@.len(),
    ensures
        b == (i + pat@.len() <= s@.len() && s@.subrange(i as int, i + pat@.len()) == pat@),
{
    if pat.len() > s.len() - i {
        return false;
    }
    let mut k: usize = 0;
    while k < pat.len()
        invariant
            k <= pat@.len(),
            i + pat@.len() <= s@.len(),
            s@.len() == s.len(),
            forall|j: int| 0 <= j < k ==> s@[i + j] == pat@[j],
        decreases pat@.len() - k,
    {
        if s[i + k] != pat[k] {
            assert(s@.subrange(i as int, i + pat@.len())[k as int] != pat@[k as int]);
            return false;
        }
        k += 1;
    }
    assert(s@.subrange(i as int, i + pat@.len()) =~= pat@);
    true
}

/// Replaces every occurrence of `pat` in `s` by `rep`.
pub(crate) fn replace_chars(s: &Vec<char>, pat: &str, rep: &str) -> (out: Vec<char>)
    ensures
        out@ == replace_all(s@, pat@, rep@),
{
    let p = chars_of(pat);
    let r = chars_of(rep);
    if p.len() == 0 {
        let mut out: Vec<char> = Vec::new();
        push_all(&mut out, s.as_slice());
        return out;
    }
    let mut out: Vec<char> = Vec::new();
    let mut i: usize = 0;
    assert(s@.skip(0) == s@);
    while i < s.len()
        invariant
            i <= s@.len(),
            p@ == pat@,
            r@ == rep@,
            p@.len() > 0,
            out@ + replace_all(s@.skip(i as int), p@, r@) == replace_all(s@, p@, r@),
        decreases s@.len() - i,
    {
        let ghost rest = s@.skip(i as int);
        if matches_at(s, i, &p) {
            assert(rest.take(p@.len() as int) == s@.subrange(i as int, i + p@.len()));
            assert(rest.skip(p@.len() as int) == s@.skip(i + p@.len()));
            let ghost prev = out@;
            push_all(&mut out, r.as_slice());
            i = i + p.len();
            assert(prev + (r@ + replace_all(s@.skip(i as int), p@, r@)) == out@ + replace_all(s@.skip(i as int), p@, r@));
        } else {
            proof {
                if rest.len() >= p@.len() {
                    assert(rest.take(p@.len() as int) == s@.subrange(i as int, i + p@.len()));
                }
            }
            assert(rest.drop_first() == s@.skip(i + 1));
            let ghost prev = out@;
            out.push(s[i]);
            i += 1;
            assert(prev + (seq![s@[i - 1]] + replace_all(s@.skip(i as int), p@, r@)) == out@ + replace_all(s@.skip(i as int), p@, r@));
        }
    }
    assert(s@.skip(s@.len() as int) =~= Seq::<char>::empty());
    out
}

/// Bytes of a character in UTF-8, as `char::len_utf8`.
pub open spec fn utf8_len(c: char) -> nat {
    let u = c as u32;
    if u < 0x80 { 1 } else if u < 0x800 { 2 } else if u < 0x10000 { 3 } else { 4 }
}

/// Bytes of a character sequence in UTF-8.
pub open spec fn utf8_len_seq(s: Seq<char>) -> nat
    decreases s.len(),
{
    if s.len() == 0 {
        0
    } else {
        utf8_len_seq(s.drop_last()) + utf8_len(s.last())
    }
}

/// Byte length of the UTF-8 encoding of a character sequence.
pub(crate) fn utf8_len_exec(cs: &Vec<char>) -> (n: u128)
    ensures
        n == utf8_len_seq(cs@),
        n <= 4 * cs@.len(),
        n <= 4 * usize::MAX,
{
    let len = cs.len();
    let mut n: u128 = 0;
    let mut i: usize = 0;
    while i < cs.len()
        invariant
            i <= cs@.len(),
            n == utf8_len_seq(cs@.take(i as int)),
            n <= 4 * i,
        decreases cs@.len() - i,
    {
        assert(cs@.take(i + 1).drop_last() == cs@.take(i as int));
        let u = cs[i] as u32;
        let l: u128 = if u < 0x80 { 1 } else if u < 0x800 { 2 } else if u < 0x10000 { 3 } else { 4 };
        n = n + l;
        i += 1;
    }
    assert(cs@.take(cs@.len() as int) == cs@);
    n
}

} // verus!
