use mat::cli::{parse_args, CliAction};

fn args(a: &[&str]) -> Vec<String> {
    a.iter().map(|s| s.to_string()).collect()
}

#[test]
fn run_with_options() {
    match parse_args(&args(&["-p", "--width", "72", "doc.md"])) {
        Ok(CliAction::Run(c)) => {
            assert!(c.no_pager);
            assert_eq!(c.width, Some(72));
            assert_eq!(c.file.as_deref(), Some("doc.md"));
        },
        _ => panic!("expected a run"),
    }
    match parse_args(&args(&["--width=0", "-"])) {
        Ok(CliAction::Run(c)) => {
            assert_eq!(c.width, Some(0));
            assert_eq!(c.file.as_deref(), Some("-"));
        },
        _ => panic!("expected a run"),
    }
}

#[test]
fn requests_end_parsing() {
    assert!(matches!(parse_args(&args(&["-h", "--bogus"])), Ok(CliAction::Help)));
    assert!(matches!(parse_args(&args(&["-V"])), Ok(CliAction::Version)));
    match parse_args(&args(&["--completions=zsh"])) {
        Ok(CliAction::Completions(s)) => assert_eq!(s, "zsh"),
        _ => panic!("expected completions"),
    }
}

#[test]
fn errors_name_the_argument() {
    assert_eq!(parse_args(&args(&["-w", "wide"])).err(), Some("Invalid width value: 'wide'".to_string()));
    assert_eq!(parse_args(&args(&["--width"])).err(), Some("Option '--width' requires a value".to_string()));
    assert_eq!(parse_args(&args(&["--nope"])).err(), Some("Unknown option: '--nope'".to_string()));
    assert_eq!(parse_args(&args(&["a", "b"])).err(), Some("Unexpected argument: 'b'".to_string()));
    assert_eq!(
        parse_args(&args(&["-c"])).err(),
        Some("Option '--completions' requires a shell name (zsh, fish, bash)".to_string())
    );
}
