use parser_diff::complog::CompLog;
use parser_diff::differ::{diff_outputs, diff_stderr, Channel, DiffError, ExitState, RunOutput};
use parser_diff::parsing::LogError;

fn s(text: &str) -> String {
    text.to_string()
}

fn run(code: Option<i32>, stdout: &[u8], stderr: &[u8]) -> RunOutput {
    RunOutput {
        status: ExitState { success: code == Some(0), code },
        stdout: stdout.to_vec(),
        stderr: stderr.to_vec(),
    }
}

fn log(records: &[(&str, &str)]) -> CompLog {
    let mut l = CompLog::new();
    for (m, p) in records {
        l.record(s(m), s(p));
    }
    l
}

fn record(level: i32, msg: &str, file: &str) -> String {
    format!(
        "@nix {{\"action\":\"msg\",\"file\":\"{}\",\"level\":{},\"msg\":\"{}\",\"raw_msg\":\"{}\"}}\n",
        file, level, msg, msg
    )
}

#[test]
fn equal_outputs_give_no_record() {
    let a = run(Some(0), b"out", b"@nix {\"action\":\"msg\",\"level\":0,\"msg\":\"m\"}\n");
    let b = run(Some(0), b"out", b"@nix {\"action\":\"msg\",\"level\":0,\"msg\":\"m\"}\n");
    assert!(matches!(diff_outputs(a, b, "f.nix"), Ok(None)));
}

#[test]
fn equal_outputs_are_not_read_at_all() {
    let a = run(Some(1), &[0xff, 0xfe], b"not part of the protocol\n\xff");
    let b = run(Some(1), &[0xff, 0xfe], b"not part of the protocol\n\xff");
    assert!(matches!(diff_outputs(a, b, "f.nix"), Ok(None)));
}

#[test]
fn parser_b_fails_with_a_syntax_error() {
    let a = run(Some(0), b"", b"");
    let stderr = "@nix {\"action\":\"msg\",\"file\":\"pkg.nix\",\"level\":0,\"msg\":\"syntax error\",\"raw_msg\":\"syntax error\"}\n";
    let b = run(Some(1), b"", stderr.as_bytes());
    let d = diff_outputs(a, b, "pkg.nix").ok().unwrap().unwrap();
    let pass = d.pass_eq.unwrap();
    assert!(pass.result_a && !pass.result_b);
    let exit = d.exit_eq.unwrap();
    assert_eq!((exit.result_a, exit.result_b), (Some(0), Some(1)));
    assert!(d.stdout_eq.is_none());
    let err = d.err_eq.unwrap();
    assert!(err.result_a.is_empty());
    assert!(err.result_b.same(&log(&[("syntax error", "pkg.nix")])));
    assert!(d.warn_eq.is_none());
    assert!(d.trace_eq.is_none());
}

#[test]
fn warnings_at_different_positions() {
    let a = run(Some(0), b"", record(1, "w", "a.nix").as_bytes());
    let b = run(Some(0), b"", record(1, "w", "b.nix").as_bytes());
    let d = diff_outputs(a, b, "x.nix").ok().unwrap().unwrap();
    assert!(d.pass_eq.is_none() && d.exit_eq.is_none() && d.stdout_eq.is_none());
    assert!(d.err_eq.is_none() && d.trace_eq.is_none());
    let warn = d.warn_eq.unwrap();
    assert!(warn.result_a.same(&log(&[("w", "a.nix")])));
    assert!(warn.result_b.same(&log(&[("w", "b.nix")])));
}

#[test]
fn deprecation_messages_are_compared_by_feature() {
    let a = run(
        Some(0),
        b"",
        record(1, "please pass --extra-deprecated-features builtins-abort-on-warn to nix", "a.nix").as_bytes(),
    );
    let b = run(
        Some(0),
        b"",
        record(1, "use --extra-deprecated-features builtins-abort-on-warn", "b.nix").as_bytes(),
    );
    let d = diff_outputs(a, b, "x.nix").ok().unwrap().unwrap();
    let warn = d.warn_eq.unwrap();
    assert!(warn.result_a.same(&log(&[("Deprecated Feature: builtins-abort-on-warn", "a.nix")])));
    assert!(warn.result_b.same(&log(&[("Deprecated Feature: builtins-abort-on-warn", "b.nix")])));
}

#[test]
fn reordered_and_repeated_records_are_no_difference() {
    let one = record(0, "e1", "a.nix");
    let two = record(0, "e2", "b.nix");
    let a = run(Some(1), b"", format!("{}{}", one, two).as_bytes());
    let b = run(Some(1), b"", format!("{}{}{}", two, one, two).as_bytes());
    let d = diff_outputs(a, b, "x.nix").ok().unwrap().unwrap();
    assert!(d.pass_eq.is_none());
    assert!(d.exit_eq.is_none());
    assert!(d.stdout_eq.is_none());
    assert!(d.err_eq.is_none());
    assert!(d.warn_eq.is_none());
    assert!(d.trace_eq.is_none());
}

#[test]
fn both_failing_alike_is_no_pass_difference() {
    let a = run(Some(1), b"a", b"");
    let b = run(Some(1), b"b", b"");
    let d = diff_outputs(a, b, "x.nix").ok().unwrap().unwrap();
    assert!(d.pass_eq.is_none());
    assert!(d.exit_eq.is_none());
    let out = d.stdout_eq.unwrap();
    assert_eq!((out.result_a.as_str(), out.result_b.as_str()), ("a", "b"));
}

#[test]
fn different_codes_of_two_failures() {
    let a = run(Some(1), b"", b"");
    let b = run(Some(2), b"", b"");
    let d = diff_outputs(a, b, "x.nix").ok().unwrap().unwrap();
    assert!(d.pass_eq.is_none());
    let exit = d.exit_eq.unwrap();
    assert_eq!((exit.result_a, exit.result_b), (Some(1), Some(2)));
}

#[test]
fn signal_against_exit_code() {
    let a = run(None, b"", b"");
    let b = run(Some(0), b"", b"");
    let d = diff_outputs(a, b, "x.nix").ok().unwrap().unwrap();
    let pass = d.pass_eq.unwrap();
    assert!(!pass.result_a && pass.result_b);
    let exit = d.exit_eq.unwrap();
    assert_eq!((exit.result_a, exit.result_b), (None, Some(0)));
}

#[test]
fn stderr_that_is_not_text_is_an_encoding_error() {
    let a = run(Some(0), b"", &[0x40, 0xff]);
    let b = run(Some(1), b"", b"");
    assert!(matches!(diff_outputs(a, b, "x.nix"), Err(DiffError::EncodingError(Channel::Stderr))));
    let a = run(Some(0), b"", b"");
    let b = run(Some(1), b"", &[0xc3]);
    assert!(matches!(diff_outputs(a, b, "x.nix"), Err(DiffError::EncodingError(Channel::Stderr))));
}

#[test]
fn equal_stderr_that_is_not_text_fails_once_anything_differs() {
    let a = run(Some(0), b"", &[0xff]);
    let b = run(Some(1), b"", &[0xff]);
    assert!(matches!(diff_outputs(a, b, "x.nix"), Err(DiffError::EncodingError(Channel::Stderr))));
}

#[test]
fn stdout_has_to_be_text_only_where_it_differs() {
    let a = run(Some(0), &[0xff], b"");
    let b = run(Some(1), &[0xff], b"");
    let d = diff_outputs(a, b, "x.nix").ok().unwrap().unwrap();
    assert!(d.stdout_eq.is_none());
    let a = run(Some(0), &[0xff], b"");
    let b = run(Some(0), b"fine", b"");
    assert!(matches!(diff_outputs(a, b, "x.nix"), Err(DiffError::EncodingError(Channel::Stdout))));
    let a = run(Some(0), b"fine", b"");
    let b = run(Some(0), &[0xe2, 0x82], b"");
    assert!(matches!(diff_outputs(a, b, "x.nix"), Err(DiffError::EncodingError(Channel::Stdout))));
}

#[test]
fn stdout_is_decoded_as_utf8() {
    let a = run(Some(0), "gr\u{fc}n".as_bytes(), b"");
    let b = run(Some(0), "\u{20ac}".as_bytes(), b"");
    let d = diff_outputs(a, b, "x.nix").ok().unwrap().unwrap();
    let out = d.stdout_eq.unwrap();
    assert_eq!(out.result_a, "gr\u{fc}n");
    assert_eq!(out.result_b, "\u{20ac}");
}

#[test]
fn protocol_violation_is_surfaced() {
    let a = run(Some(0), b"", b"error: plain text\n");
    let b = run(Some(0), b"", b"");
    match diff_outputs(a, b, "x.nix") {
        Err(DiffError::ProtocolViolation(LogError::UnsupportedLinePrefix(head))) => {
            assert_eq!(head, b"erro".to_vec())
        }
        _ => panic!("a line that is not part of the protocol must fail the comparison"),
    }
    let a = run(Some(0), b"", b"");
    let b = run(Some(0), b"", b"@nix {\"action\":\"start\",\"level\":0,\"msg\":\"m\"}");
    match diff_outputs(a, b, "x.nix") {
        Err(DiffError::ProtocolViolation(LogError::UnsupportedAction(action))) => assert_eq!(action, "start"),
        _ => panic!("an unknown action must fail the comparison"),
    }
}

#[test]
fn stderr_errors_come_before_stdout_errors() {
    let a = run(Some(0), &[0xff], b"plain text");
    let b = run(Some(0), b"", b"");
    assert!(matches!(diff_outputs(a, b, "x.nix"), Err(DiffError::ProtocolViolation(_))));
}

#[test]
fn stderr_differing_only_in_skipped_lines_gives_an_empty_record() {
    let a = run(Some(0), b"", b"\n\n");
    let b = run(Some(0), b"", b"@nix {broken\n");
    let d = diff_outputs(a, b, "x.nix").ok().unwrap().unwrap();
    assert!(d.pass_eq.is_none() && d.exit_eq.is_none() && d.stdout_eq.is_none());
    assert!(d.err_eq.is_none() && d.warn_eq.is_none() && d.trace_eq.is_none());
}

#[test]
fn diff_stderr_of_equal_texts_reads_nothing() {
    let (e, w, t) = diff_stderr(s("not part of the protocol"), s("not part of the protocol"), "x.nix")
        .ok()
        .unwrap();
    assert!(e.is_none() && w.is_none() && t.is_none());
}

#[test]
fn diff_stderr_by_severity() {
    let a = format!("{}{}{}", record(0, "e", "a"), record(1, "w", "a"), record(2, "t", "a"));
    let b = format!("{}{}{}", record(0, "e", "a"), record(1, "w", "b"), record(3, "t", "a"));
    let (e, w, t) = diff_stderr(a, b, "x.nix").ok().unwrap();
    assert!(e.is_none());
    assert!(t.is_none());
    let w = w.unwrap();
    assert!(w.result_a.same(&log(&[("w", "a")])));
    assert!(w.result_b.same(&log(&[("w", "b")])));
}

#[test]
fn diff_stderr_fails_on_the_first_stream_first() {
    let r = diff_stderr(s("@nix {\"action\":\"a\",\"level\":0,\"msg\":\"m\"}"), s("plain"), "x.nix");
    assert!(matches!(r, Err(LogError::UnsupportedAction(_))));
    let r = diff_stderr(s(""), s("plain"), "x.nix");
    assert!(matches!(r, Err(LogError::UnsupportedLinePrefix(_))));
}
