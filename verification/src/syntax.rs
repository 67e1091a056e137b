//! Syntax highlighting of fenced code through `syntect`, as 24-bit ANSI colors.

use vstd::prelude::*;
use crate::text::{
    chars_of, push_all, push_str, split_lines, split_lines_exec, string_of, strings_view, take_chars,
    trim_chars, trim_ws,
    vecs_view,
};
use syntect::easy::HighlightLines;
use syntect::highlighting::{Theme, ThemeSet};
use syntect::parsing::SyntaxSet;
use syntect::util::{as_24_bit_terminal_escaped, LinesWithEndings};

verus! {

#[verifier::external_type_specification]
#[verifier::external_body]
pub struct ExSyntaxSet(SyntaxSet);

#[verifier::external_type_specification]
#[verifier::external_body]
pub struct ExTheme(Theme);

/// The loaded syntax definitions and the color theme.
pub struct SyntaxState {
    ps: SyntaxSet,
    theme: Theme,
}

#[verifier::external_type_specification]
#[verifier::external_body]
pub struct ExThemeSet(ThemeSet);

/// `SyntaxSet::load_defaults_newlines`: syntect's bundled syntaxes, for
/// lines that keep their newline. Nothing is stated of the loaded value.
#[verifier::external_body]
fn bundled_syntaxes() -> SyntaxSet {
    SyntaxSet::load_defaults_newlines()
}

/// `ThemeSet::load_defaults`: syntect's bundled themes. Nothing is stated
/// of the loaded value.
#[verifier::external_body]
fn bundled_themes() -> ThemeSet {
    ThemeSet::load_defaults()
}

/// Removes the theme called `name` from the set's map of themes
/// (`BTreeMap::remove` on `ThemeSet::themes`) and returns it; nothing is
/// stated of whether the set holds it.
#[verifier::external_body]
fn take_theme(themes: &mut ThemeSet, name: &str) -> Option<Theme> {
    themes.themes.remove(name)
}

/// The first theme of the set in name order (`ThemeSet::themes` consumed
/// with `into_values`), if any.
#[verifier::external_body]
fn first_theme(themes: ThemeSet) -> Option<Theme> {
    themes.themes.into_values().next()
}

/// `Theme::default()`: syntect's empty theme.
#[verifier::external_body]
fn empty_theme() -> Theme {
    Theme::default()
}

impl SyntaxState {
    /// Loads the bundled syntaxes and the `base16-ocean.dark` theme (another
    /// bundled theme if that one were missing).
    pub fn new() -> Self {
        let mut themes = bundled_themes();
        let theme = match take_theme(&mut themes, "base16-ocean.dark") {
            Some(t) => t,
            None => match first_theme(themes) {
                Some(t) => t,
                None => empty_theme(),
            },
        };
        SyntaxState { ps: bundled_syntaxes(), theme }
    }
}

/// The pieces `syntect::util::LinesWithEndings` yields: each line with its
/// newline, and a last line without one when the text does not end in a
/// newline.
pub open spec fn lines_with_endings(s: Seq<char>) -> Seq<Seq<char>> {
    let ls = split_lines(s);
    let n = ls.len();
    Seq::new((n - 1) as nat, |i: int| ls[i].push('\n')) + if ls[n - 1].len() > 0 {
        seq![ls[n - 1]]
    } else {
        Seq::empty()
    }
}

/// A syntax name given back by a lookup, as values.
pub open spec fn name_view(o: Option<String>) -> Option<Seq<char>> {
    match o {
        Some(n) => Some(n@),
        None => None,
    }
}

/// The name of the syntax `find_syntax_by_token` finds for a token in the
/// bundled syntaxes, if any.
pub uninterp spec fn token_syntax(token: Seq<char>) -> Option<Seq<char>>;

/// The name of the syntax `find_syntax_by_extension` finds for a file
/// extension in the bundled syntaxes, if any.
pub uninterp spec fn extension_syntax(ext: Seq<char>) -> Option<Seq<char>>;

/// `SyntaxSet::find_syntax_by_token`, giving the found syntax's name. Every
/// `SyntaxState` holds the same bundled syntaxes, so the result depends on
/// the token alone; it is left to the name `token_syntax`.
#[verifier::external_body]
fn syntax_by_token(state: &SyntaxState, token: &str) -> (name: Option<String>)
    ensures
        name_view(name) == token_syntax(token@),
{
    state.ps.find_syntax_by_token(token).map(|s| s.name.clone())
}

/// `SyntaxSet::find_syntax_by_extension`, giving the found syntax's name;
/// left to the name `extension_syntax`.
#[verifier::external_body]
fn syntax_by_extension(state: &SyntaxState, ext: &str) -> (name: Option<String>)
    ensures
        name_view(name) == extension_syntax(ext@),
{
    state.ps.find_syntax_by_extension(ext).map(|s| s.name.clone())
}

/// What highlighting gives for each line of `code` with the syntax named
/// `syntax`: for each line the number of styled ranges and their 24-bit
/// escaped rendering; `None` when the bundled syntaxes hold no such name.
pub uninterp spec fn syntect_escapes(code: Seq<char>, syntax: Seq<char>) -> Option<Seq<(nat, Seq<char>)>>;

/// The escapes of a highlighting result, as values.
pub open spec fn escapes_view(v: Seq<(usize, String)>) -> Seq<(nat, Seq<char>)> {
    v.map_values(|p: (usize, String)| (p.0 as nat, p.1@))
}

/// Highlights `code` with `syntect` in the syntax named `syntax`
/// (`find_syntax_by_name`; `None` when the set holds no such name): each
/// line of `LinesWithEndings` goes through `HighlightLines::highlight_line`
/// and `as_24_bit_terminal_escaped`, an error counting as no ranges. Each
/// entry is the number of styled ranges and the escaped text. Every
/// `SyntaxState` holds the same bundled syntaxes and theme, so the result
/// depends on the code and the syntax name alone. The contract states one
/// entry per line; the entries themselves are left to the name
/// `syntect_escapes`.
#[verifier::external_body]
fn highlight_escapes(state: &SyntaxState, syntax: &str, code: &str) -> (res: Option<Vec<(usize, String)>>)
    ensures
        match res {
            Some(v) => syntect_escapes(code@, syntax@) == Some(escapes_view(v@)) && v@.len() == lines_with_endings(code@).len(),
            None => syntect_escapes(code@, syntax@) is None,
        },
{
    let found = match state.ps.find_syntax_by_name(syntax) {
        Some(f) => f,
        None => return None,
    };
    let mut h = HighlightLines::new(found, &state.theme);
    Some(LinesWithEndings::from(code).map(|line| match h.highlight_line(line, &state.ps) {
        Ok(r) => (r.len(), as_24_bit_terminal_escaped(&r[..], false)),
        Err(_) => (0, String::new()),
    }).collect())
}

/// The name of syntect's plain-text syntax.
pub open spec fn plain_text_syntax() -> Seq<char> {
    "Plain Text"@
}

/// The syntax code in language `key` is highlighted with: the one found by
/// token, else by extension, else plain text (plain text also when no
/// language is given).
pub open spec fn chosen_syntax(key: Seq<char>) -> Seq<char> {
    if key.len() == 0 {
        plain_text_syntax()
    } else {
        match token_syntax(key) {
            Some(n) => n,
            None => match extension_syntax(key) {
                Some(n) => n,
                None => plain_text_syntax(),
            },
        }
    }
}

/// Chooses the syntax for the language `key`.
fn choose_syntax(state: &SyntaxState, key: &Vec<char>) -> (name: String)
    ensures
        name@ == chosen_syntax(key@),
{
    if key.len() == 0 {
        return "Plain Text".to_owned();
    }
    let k = string_of(key.as_slice());
    match syntax_by_token(state, k.as_str()) {
        Some(n) => n,
        None => match syntax_by_extension(state, k.as_str()) {
            Some(n) => n,
            None => "Plain Text".to_owned(),
        },
    }
}

/// `s` without trailing carriage returns and newlines.
pub open spec fn trim_end_crlf(s: Seq<char>) -> Seq<char>
    decreases s.len(),
{
    if s.len() > 0 && (s.last() == '\n' || s.last() == '\r') {
        trim_end_crlf(s.drop_last())
    } else {
        s
    }
}

pub(crate) fn trim_end_crlf_exec(cs: &Vec<char>) -> (out: Vec<char>)
    ensures
        out@ == trim_end_crlf(cs@),
{
    let mut i = cs.len();
    assert(cs@.take(cs@.len() as int) == cs@);
    while i > 0 && (cs[i - 1] == '\n' || cs[i - 1] == '\r')
        invariant
            i <= cs@.len(),
            trim_end_crlf(cs@.take(i as int)) == trim_end_crlf(cs@),
        decreases i,
    {
        assert(cs@.take(i as int).drop_last() == cs@.take(i - 1));
        i -= 1;
    }
    assert(i > 0 ==> cs@.take(i as int).last() == cs@[i - 1]);
    assert(trim_end_crlf(cs@.take(i as int)) == cs@.take(i as int));
    take_chars(cs, i)
}

/// Lines carrying no style: no ranges and no text, one per line of `code`.
pub open spec fn unstyled(code: Seq<char>) -> Seq<(nat, Seq<char>)> {
    Seq::new(lines_with_endings(code).len(), |i: int| (0nat, Seq::<char>::empty()))
}

/// The escapes code in language `key` is shown with: those of the chosen
/// syntax, else those of plain text, else none.
pub open spec fn chosen_escapes(code: Seq<char>, key: Seq<char>) -> Seq<(nat, Seq<char>)> {
    match syntect_escapes(code, chosen_syntax(key)) {
        Some(e) => e,
        None => match syntect_escapes(code, plain_text_syntax()) {
            Some(e) => e,
            None => unstyled(code),
        },
    }
}

/// The lines of `code` as shown with the escapes `esc`: a line without
/// styled ranges stays as written (newline removed); otherwise its escaped
/// rendering, newline removed, followed by an SGR reset.
pub open spec fn styled_lines(code: Seq<char>, esc: Seq<(nat, Seq<char>)>) -> Seq<Seq<char>> {
    let lines = lines_with_endings(code);
    Seq::new(
        lines.len(),
        |i: int|
            if esc[i].0 == 0 {
                trim_end_crlf(lines[i])
            } else {
                trim_end_crlf(esc[i].1) + "\x1b[0m"@
            },
    )
}

/// The highlighted lines of `code` in language `lang`.
pub open spec fn highlight_spec(code: Seq<char>, lang: Seq<char>) -> Seq<Seq<char>> {
    styled_lines(code, chosen_escapes(code, trim_ws(lang)))
}

/// Builds the shown lines of `code` from the highlighting `esc` (one entry
/// per line: styled ranges and escaped text).
pub fn highlighted_lines(code: &str, esc: &Vec<(usize, String)>) -> (lines: Vec<String>)
    requires
        esc@.len() == lines_with_endings(code@).len(),
    ensures
        strings_view(lines@) == styled_lines(code@, escapes_view(esc@)),
{
    let ghost ev = escapes_view(esc@);
    let cs = chars_of(code);
    let pieces = split_lines_exec(cs.as_slice());
    let ghost ls = vecs_view(pieces@);
    let ghost lw = lines_with_endings(code@);
    proof {
        crate::text::lemma_split_lines_nonempty(code@);
    }
    let mut lines: Vec<String> = Vec::new();
    let mut i: usize = 0;
    while i < esc.len()
        invariant
            i <= esc@.len(),
            esc@.len() == lw.len(),
            lw == lines_with_endings(code@),
            ls == vecs_view(pieces@),
            ls == split_lines(code@),
            ls.len() >= 1,
            ev == escapes_view(esc@),
            strings_view(lines@) == styled_lines(code@, ev).take(i as int),
        decreases esc@.len() - i,
    {
        let mut line: Vec<char> = Vec::new();
        push_all(&mut line, pieces[i].as_slice());
        if i + 1 < pieces.len() {
            line.push('\n');
        }
        assert(line@ == lw[i as int]);
        let ghost e = ev[i as int];
        assert(e == (esc@[i as int].0 as nat, esc@[i as int].1@));
        let out = if esc[i].0 == 0 {
            trim_end_crlf_exec(&line)
        } else {
            let mut t = trim_end_crlf_exec(&chars_of(esc[i].1.as_str()));
            push_str(&mut t, "\x1b[0m");
            t
        };
        let ghost before = strings_view(lines@);
        lines.push(string_of(out.as_slice()));
        assert(strings_view(lines@) == before.push(out@));
        i += 1;
        assert(styled_lines(code@, ev).take(i as int) =~= styled_lines(code@, ev).take(i - 1).push(out@));
    }
    assert(styled_lines(code@, ev).take(esc@.len() as int) =~= styled_lines(code@, ev));
    lines
}

/// Highlights source code using 24-bit ANSI color sequences.
pub fn highlight_code(state: &SyntaxState, code: &str, lang: &str) -> (lines: Vec<String>)
    ensures
        strings_view(lines@) == highlight_spec(code@, lang@),
{
    let key = trim_chars(&chars_of(lang));
    let syntax = choose_syntax(state, &key);
    let esc = match highlight_escapes(state, syntax.as_str(), code) {
        Some(e) => e,
        None => match highlight_escapes(state, "Plain Text", code) {
            Some(e) => e,
            None => {
                let n = count_lines_with_endings(code);
                let mut v: Vec<(usize, String)> = Vec::new();
                let mut k: usize = 0;
                while k < n
                    invariant
                        k <= n,
                        n == lines_with_endings(code@).len(),
                        escapes_view(v@) =~= Seq::new(k as nat, |i: int| (0nat, Seq::<char>::empty())),
                        v@.len() == k,
                    decreases n - k,
                {
                    let e = String::new();
                    assert(e@ =~= Seq::<char>::empty());
                    let ghost before = escapes_view(v@);
                    v.push((0, e));
                    assert(escapes_view(v@) =~= before.push((0nat, Seq::<char>::empty())));
                    k += 1;
                }
                assert(escapes_view(v@) =~= unstyled(code@));
                v
            },
        },
    };
    assert(escapes_view(esc@) =~= chosen_escapes(code@, key@));
    highlighted_lines(code, &esc)
}

/// The number of pieces `LinesWithEndings` yields for `code`.
fn count_lines_with_endings(code: &str) -> (n: usize)
    ensures
        n == lines_with_endings(code@).len(),
{
    let cs = chars_of(code);
    let pieces = split_lines_exec(cs.as_slice());
    proof {
        crate::text::lemma_split_lines_nonempty(code@);
    }
    let last = pieces.len() - 1;
    if pieces[last].len() > 0 {
        pieces.len()
    } else {
        last
    }
}

} // verus!
