//! Command-line arguments: what each argument asks for, or why it is refused.

use vstd::prelude::*;
use crate::text::{chars_of, parse_usize, parse_usize_spec, push_all, push_str, string_of};

verus! {

/// The options of a viewing run.
pub struct CliArgs {
    pub file: Option<String>,
    pub no_pager: bool,
    pub width: Option<usize>,
}

/// What the command line asks for.
pub enum CliAction {
    /// View a document with these options.
    Run(CliArgs),
    /// Print the usage text.
    Help,
    /// Print the version.
    Version,
    /// Print a completion script for the named shell.
    Completions(String),
}

/// A command-line outcome as values.
pub enum CliOutcome {
    Run(Option<Seq<char>>, bool, Option<usize>),
    Help,
    Version,
    Completions(Seq<char>),
}

/// Whether `s` begins with `p`.
pub open spec fn has_prefix(s: Seq<char>, p: Seq<char>) -> bool {
    p.len() <= s.len() && s.take(p.len() as int) == p
}

/// The message for a width that does not parse.
pub open spec fn invalid_width(val: Seq<char>) -> Seq<char> {
    "Invalid width value: '"@ + val + "'"@
}

/// Reads the arguments from index `i` on, with the options gathered so far.
/// Help, version and completion requests end the reading at once.
pub open spec fn parse_from(
    args: Seq<Seq<char>>,
    i: int,
    file: Option<Seq<char>>,
    no_pager: bool,
    width: Option<usize>,
) -> Result<CliOutcome, Seq<char>>
    decreases args.len() - i,
{
    if i < 0 || i >= args.len() {
        Ok(CliOutcome::Run(file, no_pager, width))
    } else {
        let a = args[i];
        if a == "-h"@ || a == "--help"@ {
            Ok(CliOutcome::Help)
        } else if a == "-v"@ || a == "-V"@ || a == "--version"@ {
            Ok(CliOutcome::Version)
        } else if a == "-c"@ || a == "--completions"@ {
            if i + 1 < args.len() {
                Ok(CliOutcome::Completions(args[i + 1]))
            } else {
                Err("Option '--completions' requires a shell name (zsh, fish, bash)"@)
            }
        } else if has_prefix(a, "--completions="@) {
            Ok(CliOutcome::Completions(a.skip("--completions="@.len() as int)))
        } else if a == "-p"@ || a == "--no-pager"@ {
            parse_from(args, i + 1, file, true, width)
        } else if a == "-w"@ || a == "--width"@ {
            if i + 1 < args.len() {
                let val = args[i + 1];
                match parse_usize_spec(val) {
                    Some(w) => parse_from(args, i + 2, file, no_pager, Some(w as usize)),
                    None => Err(invalid_width(val)),
                }
            } else {
                Err("Option '--width' requires a value"@)
            }
        } else if has_prefix(a, "--width="@) {
            let val = a.skip("--width="@.len() as int);
            match parse_usize_spec(val) {
                Some(w) => parse_from(args, i + 1, file, no_pager, Some(w as usize)),
                None => Err(invalid_width(val)),
            }
        } else if has_prefix(a, "-"@) && a != "-"@ {
            Err("Unknown option: '"@ + a + "'"@)
        } else if file is None {
            parse_from(args, i + 1, Some(a), no_pager, width)
        } else {
            Err("Unexpected argument: '"@ + a + "'"@)
        }
    }
}

/// An option that reads the next argument as its value.
pub open spec fn takes_value(a: Seq<char>) -> bool {
    a == "-w"@ || a == "--width"@ || a == "-c"@ || a == "--completions"@
}

/// The width an argument gives, as an option value.
pub open spec fn width_of(v: Seq<char>, w: Option<usize>) -> Option<usize> {
    match parse_usize_spec(v) {
        Some(n) => Some(n as usize),
        None => w,
    }
}

proof fn lemma_literals()
    ensures
        "--no-pager"@.len() == 10,
        "-p"@.len() == 2,
        "-p"@[0] == '-',
        "-p"@[1] == 'p',
        "--no-pager"@[0] == '-',
        "--no-pager"@[1] == '-',
        "--no-pager"@[2] == 'n',
        "--completions="@.len() == 14,
        "--width="@.len() == 8,
        "-h"@ != "--no-pager"@ && "--help"@ != "--no-pager"@ && "-v"@ != "--no-pager"@ && "-V"@ != "--no-pager"@
            && "--version"@ != "--no-pager"@ && "-c"@ != "--no-pager"@ && "--completions"@ != "--no-pager"@,
        "-h"@ != "-p"@ && "--help"@ != "-p"@ && "-v"@ != "-p"@ && "-V"@ != "-p"@ && "--version"@ != "-p"@
            && "-c"@ != "-p"@ && "--completions"@ != "-p"@,
{
    reveal_strlit("--no-pager");
    reveal_strlit("-p");
    reveal_strlit("--completions=");
    reveal_strlit("--width=");
    reveal_strlit("-h");
    reveal_strlit("--help");
    reveal_strlit("-v");
    reveal_strlit("-V");
    reveal_strlit("--version");
    reveal_strlit("-c");
    reveal_strlit("--completions");
    assert("-h"@[1] != "-p"@[1]);
    assert("-v"@[1] != "-p"@[1]);
    assert("-V"@[1] != "-p"@[1]);
    assert("-c"@[1] != "-p"@[1]);
    assert("--help"@.len() != "-p"@.len());
    assert("--version"@.len() != "-p"@.len());
    assert("--completions"@.len() != "-p"@.len());
    assert("-h"@.len() != "--no-pager"@.len());
    assert("-v"@.len() != "--no-pager"@.len());
    assert("-V"@.len() != "--no-pager"@.len());
    assert("-c"@.len() != "--no-pager"@.len());
    assert("--help"@.len() != "--no-pager"@.len());
    assert("--version"@[2] != "--no-pager"@[2]);
    assert("--completions"@.len() != "--no-pager"@.len());
}

proof fn lemma_long_short(
    a1: Seq<Seq<char>>,
    a2: Seq<Seq<char>>,
    p: int,
    i: int,
    file: Option<Seq<char>>,
    np: bool,
    w: Option<usize>,
)
    requires
        a1.len() == a2.len(),
        0 <= p < a1.len(),
        a1[p] == "--no-pager"@,
        a2[p] == "-p"@,
        forall|j: int| 0 <= j < a1.len() && j != p ==> a1[j] == a2[j],
        p == 0 || !takes_value(a1[p - 1]),
        0 <= i,
    ensures
        parse_from(a1, i, file, np, w) == parse_from(a2, i, file, np, w),
    decreases a1.len() - i,
{
    lemma_literals();
    if i < a1.len() {
        lemma_long_short(a1, a2, p, i + 1, file, true, w);
        lemma_long_short(a1, a2, p, i + 1, Some(a1[i]), np, w);
        lemma_long_short(a1, a2, p, i + 1, file, np, width_of(a1[i].skip(8), w));
        if i + 1 < a1.len() {
            lemma_long_short(a1, a2, p, i + 2, file, np, width_of(a1[i + 1], w));
        }
        if i == p {
            assert(!has_prefix(a1[i], "--completions="@));
            assert(!has_prefix(a2[i], "--completions="@));
        } else {
            assert(a1[i] == a2[i]);
            if i + 1 < a1.len() && i + 1 != p {
                assert(a1[i + 1] == a2[i + 1]);
            }
        }
    }
}

/// The long and the short spelling of the paging switch mean the same:
/// wherever `--no-pager` stands as an option (not as the value of the
/// option before it), replacing it by `-p` gives the same outcome.
pub proof fn law_no_pager_spellings(a: Seq<Seq<char>>, b: Seq<Seq<char>>)
    requires
        a.len() == 0 || !takes_value(a.last()),
    ensures
        parse_from(a + seq!["--no-pager"@] + b, 0, None, false, None) == parse_from(
            a + seq!["-p"@] + b,
            0,
            None,
            false,
            None,
        ),
{
    let a1 = a + seq!["--no-pager"@] + b;
    let a2 = a + seq!["-p"@] + b;
    let p = a.len() as int;
    assert(a1[p] == "--no-pager"@);
    assert(a2[p] == "-p"@);
    assert forall|j: int| 0 <= j < a1.len() && j != p implies a1[j] == a2[j] by {
        if j < p {
            assert(a1[j] == a[j]);
            assert(a2[j] == a[j]);
        } else {
            assert(a1[j] == b[j - p - 1]);
            assert(a2[j] == b[j - p - 1]);
        }
    }
    if p > 0 {
        assert(a1[p - 1] == a.last());
    }
    lemma_long_short(a1, a2, p, 0, None, false, None);
}

/// `--no-pager` followed by a file name turns the pager off and views that
/// file.
pub proof fn law_no_pager_runs_file(f: Seq<char>)
    requires
        f.len() > 0,
        f[0] != '-',
    ensures
        parse_from(seq!["--no-pager"@, f], 0, None, false, None) == Ok::<CliOutcome, Seq<char>>(
            CliOutcome::Run(Some(f), true, None),
        ),
{
    lemma_literals();
    reveal_strlit("-h");
    reveal_strlit("--help");
    reveal_strlit("-v");
    reveal_strlit("-V");
    reveal_strlit("--version");
    reveal_strlit("-c");
    reveal_strlit("--completions");
    reveal_strlit("-w");
    reveal_strlit("--width");
    reveal_strlit("-");
    reveal_strlit("--completions=");
    reveal_strlit("--width=");
    let args = seq!["--no-pager"@, f];
    assert(args[0] == "--no-pager"@);
    assert(args[1] == f);
    assert(f != "-h"@ && f != "--help"@ && f != "-v"@ && f != "-V"@ && f != "--version"@ && f != "-c"@
        && f != "--completions"@ && f != "-p"@ && f != "--no-pager"@ && f != "-w"@ && f != "--width"@) by {
        assert(f[0] != "-h"@[0]);
        assert(f[0] != "--help"@[0]);
        assert(f[0] != "-v"@[0]);
        assert(f[0] != "-V"@[0]);
        assert(f[0] != "--version"@[0]);
        assert(f[0] != "-c"@[0]);
        assert(f[0] != "--completions"@[0]);
        assert(f[0] != "-w"@[0]);
        assert(f[0] != "--width"@[0]);
    }
    assert(!has_prefix(f, "--completions="@)) by {
        if has_prefix(f, "--completions="@) {
            assert(f.take(14)[0] == f[0]);
            assert("--completions="@[0] == '-');
        }
    }
    assert(!has_prefix(f, "--width="@)) by {
        if has_prefix(f, "--width="@) {
            assert(f.take(8)[0] == f[0]);
            assert("--width="@[0] == '-');
        }
    }
    assert(!has_prefix(f, "-"@)) by {
        if has_prefix(f, "-"@) {
            assert(f.take(1)[0] == f[0]);
        }
    }
    assert(!has_prefix("--no-pager"@, "--completions="@));
    assert(parse_from(args, 2, Some(f), true, None) == Ok::<CliOutcome, Seq<char>>(CliOutcome::Run(Some(f), true, None)));
    assert(parse_from(args, 1, None, true, None) == parse_from(args, 2, Some(f), true, None));
    assert(parse_from(args, 0, None, false, None) == parse_from(args, 1, None, true, None));
}

/// The outcome of an action.
pub open spec fn action_view(a: CliAction) -> CliOutcome {
    match a {
        CliAction::Run(c) => CliOutcome::Run(
            match c.file {
                Some(f) => Some(f@),
                None => None,
            },
            c.no_pager,
            c.width,
        ),
        CliAction::Help => CliOutcome::Help,
        CliAction::Version => CliOutcome::Version,
        CliAction::Completions(s) => CliOutcome::Completions(s@),
    }
}

fn eq_lit(cs: &Vec<char>, lit: &str) -> (b: bool)
    ensures
        b == (cs@ == lit@),
{
    let l = chars_of(lit);
    if cs.len() != l.len() {
        return false;
    }
    let mut i: usize = 0;
    while i < cs.len()
        invariant
            i <= cs@.len(),
            cs@.len() == l@.len(),
            l@ == lit@,
            forall|j: int| 0 <= j < i ==> cs@[j] == l@[j],
        decreases cs@.len() - i,
    {
        if cs[i] != l[i] {
            return false;
        }
        i += 1;
    }
    assert(cs@ =~= l@);
    true
}

/// The rest of `cs` after `lit`, when `cs` begins with `lit`.
fn strip_prefix_lit(cs: &Vec<char>, lit: &str) -> (r: Option<Vec<char>>)
    ensures
        match r {
            Some(rest) => has_prefix(cs@, lit@) && rest@ == cs@.skip(lit@.len() as int),
            None => !has_prefix(cs@, lit@),
        },
{
    let l = chars_of(lit);
    if l.len() > cs.len() {
        return None;
    }
    let mut i: usize = 0;
    while i < l.len()
        invariant
            i <= l@.len(),
            l@.len() <= cs@.len(),
            l@ == lit@,
            forall|j: int| 0 <= j < i ==> cs@[j] == l@[j],
        decreases l@.len() - i,
    {
        if cs[i] != l[i] {
            assert(cs@.take(l@.len() as int)[i as int] != l@[i as int]);
            return None;
        }
        i += 1;
    }
    assert(cs@.take(l@.len() as int) =~= l@);
    let mut rest: Vec<char> = Vec::new();
    let mut k = l.len();
    while k < cs.len()
        invariant
            l@.len() <= k <= cs@.len(),
            rest@ == cs@.subrange(l@.len() as int, k as int),
        decreases cs@.len() - k,
    {
        rest.push(cs[k]);
        k += 1;
        assert(cs@.subrange(l@.len() as int, k as int) == cs@.subrange(l@.len() as int, k - 1).push(cs@[k - 1]));
    }
    Some(rest)
}

fn quoted(head: &str, val: &Vec<char>) -> (s: String)
    ensures
        s@ == head@ + val@ + "'"@,
{
    let mut out: Vec<char> = Vec::new();
    push_str(&mut out, head);
    push_all(&mut out, val.as_slice());
    push_str(&mut out, "'");
    string_of(out.as_slice())
}

/// Reads the command line (without the program name).
pub fn parse_args(args: &Vec<String>) -> (res: Result<CliAction, String>)
    ensures
        match res {
            Ok(a) => parse_from(args@.map_values(|s: String| s@), 0, None, false, None) == Ok::<CliOutcome, Seq<char>>(action_view(a)),
            Err(e) => parse_from(args@.map_values(|s: String| s@), 0, None, false, None) == Err::<CliOutcome, Seq<char>>(e@),
        },
{
    let ghost av = args@.map_values(|s: String| s@);
    let mut file: Option<String> = None;
    let mut no_pager = false;
    let mut width: Option<usize> = None;
    let mut i: usize = 0;
    while i < args.len()
        invariant
            i <= args@.len(),
            av == args@.map_values(|s: String| s@),
            parse_from(av, i as int, match file { Some(f) => Some(f@), None => None }, no_pager, width)
                == parse_from(av, 0, None, false, None),
        decreases args@.len() - i,
    {
        let a = chars_of(args[i].as_str());
        assert(a@ == av[i as int]);
        if eq_lit(&a, "-h") || eq_lit(&a, "--help") {
            return Ok(CliAction::Help);
        }
        if eq_lit(&a, "-v") || eq_lit(&a, "-V") || eq_lit(&a, "--version") {
            return Ok(CliAction::Version);
        }
        if eq_lit(&a, "-c") || eq_lit(&a, "--completions") {
            if i + 1 < args.len() {
                assert(args@[i + 1]@ == av[i + 1]);
                return Ok(CliAction::Completions(args[i + 1].clone()));
            }
            return Err("Option '--completions' requires a shell name (zsh, fish, bash)".to_owned());
        }
        match strip_prefix_lit(&a, "--completions=") {
            Some(shell) => {
                return Ok(CliAction::Completions(string_of(shell.as_slice())));
            },
            None => {},
        }
        if eq_lit(&a, "-p") || eq_lit(&a, "--no-pager") {
            no_pager = true;
            i += 1;
            continue;
        }
        if eq_lit(&a, "-w") || eq_lit(&a, "--width") {
            if i + 1 < args.len() {
                assert(args@[i + 1]@ == av[i + 1]);
                match parse_usize(args[i + 1].as_str()) {
                    Some(w) => {
                        width = Some(w);
                        i += 2;
                        continue;
                    },
                    None => {
                        return Err(quoted("Invalid width value: '", &chars_of(args[i + 1].as_str())));
                    },
                }
            }
            return Err("Option '--width' requires a value".to_owned());
        }
        match strip_prefix_lit(&a, "--width=") {
            Some(val) => {
                let val_s = string_of(val.as_slice());
                match parse_usize(val_s.as_str()) {
                    Some(w) => {
                        width = Some(w);
                        i += 1;
                        continue;
                    },
                    None => {
                        return Err(quoted("Invalid width value: '", &val));
                    },
                }
            },
            None => {},
        }
        if strip_prefix_lit(&a, "-").is_some() && !eq_lit(&a, "-") {
            return Err(quoted("Unknown option: '", &a));
        }
        if file.is_none() {
            file = Some(args[i].clone());
            i += 1;
            continue;
        }
        return Err(quoted("Unexpected argument: '", &a));
    }
    Ok(CliAction::Run(CliArgs { file, no_pager, width }))
}

} // verus!
