use parser_diff::complog::CompLog;
use parser_diff::diffing::{Diff, ParserDiff};

fn s(text: &str) -> String {
    text.to_string()
}

fn log(records: &[(&str, &str)]) -> CompLog {
    let mut l = CompLog::new();
    for (m, p) in records {
        l.record(s(m), s(p));
    }
    l
}

fn logs(a: &[(&str, &str)], b: &[(&str, &str)]) -> Option<Diff<CompLog>> {
    Some(Diff { result_a: log(a), result_b: log(b) })
}

fn stdout(a: &str, b: &str) -> Option<Diff<String>> {
    Some(Diff { result_a: s(a), result_b: s(b) })
}

#[test]
fn same_message_at_different_positions() {
    let d = Diff::from(log(&[("w", "a.nix")]), log(&[("w", "b.nix")]));
    assert!(d.result_a.same(&log(&[("w", "a.nix")])));
    assert!(d.result_b.same(&log(&[("w", "b.nix")])));
}

#[test]
fn identical_findings_cancel() {
    let d = Diff::from(
        log(&[("m", "1"), ("m", "2"), ("n", "1")]),
        log(&[("n", "1"), ("m", "2"), ("m", "1")]),
    );
    assert!(d.result_a.is_empty());
    assert!(d.result_b.is_empty());
}

#[test]
fn symmetric_difference_position_by_position() {
    let a = log(&[("m", "1"), ("m", "2"), ("only_a", "5"), ("same", "7")]);
    let b = log(&[("m", "2"), ("m", "3"), ("only_b", "6"), ("same", "7")]);
    let d = Diff::from(a.duplicate(), b.duplicate());
    for (m, p) in [("m", "1"), ("m", "2"), ("m", "3"), ("only_a", "5"), ("only_b", "6"), ("same", "7"), ("x", "1")] {
        let in_a = a.contains(&s(m), &s(p));
        let in_b = b.contains(&s(m), &s(p));
        assert_eq!(d.result_a.contains(&s(m), &s(p)), in_a && !in_b);
        assert_eq!(d.result_b.contains(&s(m), &s(p)), in_b && !in_a);
    }
    assert!(!d.result_a.contains_key(&s("same")));
    assert!(!d.result_b.contains_key(&s("same")));
}

#[test]
fn difference_with_an_empty_log() {
    let a = log(&[("m", "1")]);
    let d = Diff::from(a.duplicate(), CompLog::new());
    assert!(d.result_a.same(&a));
    assert!(d.result_b.is_empty());
}

#[test]
fn log_merge_extends_both_sides() {
    let mut d = Diff { result_a: log(&[("m", "1"), ("k", "1")]), result_b: log(&[("n", "2")]) };
    d.merge(Diff { result_a: log(&[("m", "9")]), result_b: log(&[("o", "3")]) });
    assert!(d.result_a.same(&log(&[("m", "9"), ("k", "1")])));
    assert!(d.result_b.same(&log(&[("n", "2"), ("o", "3")])));
}

#[test]
fn pass_and_exit_keep_the_first() {
    let mut acc = ParserDiff::new();
    acc.pass_eq = Some(Diff { result_a: true, result_b: false });
    acc.exit_eq = Some(Diff { result_a: Some(0), result_b: Some(1) });
    let mut other = ParserDiff::new();
    other.pass_eq = Some(Diff { result_a: false, result_b: true });
    other.exit_eq = Some(Diff { result_a: None, result_b: Some(2) });
    acc.merge(other);
    let pass = acc.pass_eq.unwrap();
    assert!(pass.result_a && !pass.result_b);
    let exit = acc.exit_eq.unwrap();
    assert_eq!((exit.result_a, exit.result_b), (Some(0), Some(1)));
}

#[test]
fn absent_facets_adopt_the_incoming() {
    let mut acc = ParserDiff::new();
    let mut other = ParserDiff::new();
    other.pass_eq = Some(Diff { result_a: false, result_b: true });
    other.exit_eq = Some(Diff { result_a: None, result_b: Some(2) });
    other.stdout_eq = stdout("a", "b");
    other.err_eq = logs(&[("e", "1")], &[]);
    other.warn_eq = logs(&[], &[("w", "1")]);
    other.trace_eq = logs(&[("t", "1")], &[("t", "2")]);
    acc.merge(other);
    let pass = acc.pass_eq.unwrap();
    assert!(!pass.result_a && pass.result_b);
    let exit = acc.exit_eq.unwrap();
    assert_eq!((exit.result_a, exit.result_b), (None, Some(2)));
    let out = acc.stdout_eq.unwrap();
    assert_eq!((out.result_a.as_str(), out.result_b.as_str()), ("a", "b"));
    assert!(acc.err_eq.unwrap().result_a.same(&log(&[("e", "1")])));
    assert!(acc.warn_eq.unwrap().result_b.same(&log(&[("w", "1")])));
    let trace = acc.trace_eq.unwrap();
    assert!(trace.result_a.same(&log(&[("t", "1")])) && trace.result_b.same(&log(&[("t", "2")])));
}

#[test]
fn present_facets_survive_an_empty_incoming() {
    let mut acc = ParserDiff::new();
    acc.stdout_eq = stdout("a", "b");
    acc.err_eq = logs(&[("e", "1")], &[]);
    acc.merge(ParserDiff::new());
    let out = acc.stdout_eq.unwrap();
    assert_eq!((out.result_a.as_str(), out.result_b.as_str()), ("a", "b"));
    assert!(acc.err_eq.unwrap().result_a.same(&log(&[("e", "1")])));
    assert!(acc.pass_eq.is_none() && acc.exit_eq.is_none());
    assert!(acc.warn_eq.is_none() && acc.trace_eq.is_none());
}

#[test]
fn two_stdouts_give_the_sentinel() {
    let mut acc = ParserDiff::new();
    acc.stdout_eq = stdout("out a", "out b");
    let mut other = ParserDiff::new();
    other.stdout_eq = stdout("other a", "other b");
    acc.merge(other);
    let out = acc.stdout_eq.unwrap();
    assert_eq!(out.result_a, "Multiple given");
    assert_eq!(out.result_b, "Multiple given");
}

#[test]
fn three_files_with_stdout_give_the_sentinel() {
    let mut acc = ParserDiff::new();
    acc.stdout_eq = stdout("1a", "1b");
    for (a, b) in [("2a", "2b"), ("3a", "3b")] {
        let mut next = ParserDiff::new();
        next.stdout_eq = stdout(a, b);
        acc.merge(next);
    }
    let out = acc.stdout_eq.unwrap();
    assert_eq!((out.result_a.as_str(), out.result_b.as_str()), ("Multiple given", "Multiple given"));
}

#[test]
fn sentinel_does_not_depend_on_the_order() {
    let pairs = [("x", "y"), ("p", "q")];
    for order in [[0usize, 1], [1, 0]] {
        let mut acc = ParserDiff::new();
        acc.stdout_eq = stdout(pairs[order[0]].0, pairs[order[0]].1);
        let mut next = ParserDiff::new();
        next.stdout_eq = stdout(pairs[order[1]].0, pairs[order[1]].1);
        acc.merge(next);
        assert_eq!(acc.stdout_eq.unwrap().result_a, "Multiple given");
    }
}

#[test]
fn colliding_messages_take_the_incoming_positions() {
    let mut acc = ParserDiff::new();
    acc.warn_eq = logs(&[("w", "file1:1")], &[("w", "file1:2")]);
    let mut other = ParserDiff::new();
    other.warn_eq = logs(&[("w", "file2:1")], &[("v", "file2:2")]);
    acc.merge(other);
    let warn = acc.warn_eq.unwrap();
    assert!(warn.result_a.same(&log(&[("w", "file2:1")])));
    assert!(warn.result_b.same(&log(&[("w", "file1:2"), ("v", "file2:2")])));
}
