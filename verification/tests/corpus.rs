use parser_diff::corpus::{is_nix_file, parser_arguments, program_name, surviving, MAX_IN_FLIGHT};
use parser_diff::differ::{Channel, DiffError};
use parser_diff::diffing::{Diff, ParserDiff};
use parser_diff::parsing::LogError;

#[test]
fn corpus_files_end_in_nix() {
    assert!(is_nix_file("default.nix"));
    assert!(is_nix_file(".nix"));
    assert!(is_nix_file("a.nix.nix"));
    assert!(!is_nix_file("default.nix.bak"));
    assert!(!is_nix_file("default.NIX"));
    assert!(!is_nix_file("nix"));
    assert!(!is_nix_file("defaultnix"));
    assert!(!is_nix_file(""));
    assert!(is_nix_file("gr\u{fc}n.nix"));
}

#[test]
fn parsers_are_started_with_fixed_arguments() {
    assert_eq!(program_name(), "nix-instantiate");
    assert_eq!(
        parser_arguments("/corpus/pkg.nix"),
        vec!["--parse", "--log-format", "internal-json", "/corpus/pkg.nix"]
    );
}

#[test]
fn ten_files_at_a_time() {
    assert_eq!(MAX_IN_FLIGHT, 10);
}

#[test]
fn failed_and_agreeing_files_are_dropped() {
    let mut first = ParserDiff::new();
    first.pass_eq = Some(Diff { result_a: true, result_b: false });
    let mut second = ParserDiff::new();
    second.exit_eq = Some(Diff { result_a: Some(1), result_b: None });
    let outcomes = vec![
        Err(DiffError::SpawnFailed("No such file or directory".to_string())),
        Ok(Some(first)),
        Ok(None),
        Err(DiffError::EncodingError(Channel::Stderr)),
        Err(DiffError::ProtocolViolation(LogError::UnsupportedAction("start".to_string()))),
        Ok(Some(second)),
        Ok(None),
    ];
    let kept = surviving(outcomes);
    assert_eq!(kept.len(), 2);
    assert!(kept[0].pass_eq.is_some() && kept[0].exit_eq.is_none());
    assert!(kept[1].exit_eq.is_some() && kept[1].pass_eq.is_none());
    assert!(surviving(Vec::new()).is_empty());
    assert!(surviving(vec![Ok(None), Err(DiffError::EncodingError(Channel::Stdout))]).is_empty());
}
