use parser_diff::complog::CompLog;
use parser_diff::json::Member;
use parser_diff::parsing::{
    bucket, check_action, dedup_log, read_entries, read_line, split_stderr, LogEntry, LogError, Severity,
};

fn s(text: &str) -> String {
    text.to_string()
}

fn holds(log: &CompLog, message: &str, position: &str) -> bool {
    log.contains(&s(message), &s(position))
}

fn entry(level: i16, msg: &str, raw_msg: Option<&str>, file: Option<&str>) -> LogEntry {
    LogEntry {
        action: s("msg"),
        file: file.map(s),
        level,
        msg: s(msg),
        raw_msg: raw_msg.map(s),
    }
}

#[test]
fn one_error_record_lands_in_the_error_log() {
    let stderr = s("@nix {\"action\":\"msg\",\"file\":\"pkg.nix\",\"level\":0,\"msg\":\"syntax error\",\"raw_msg\":\"syntax error\"}\n");
    let (errors, warnings, traces) = split_stderr(stderr, "input.nix").ok().unwrap();
    assert_eq!(errors.len(), 1);
    assert!(holds(&errors, "syntax error", "pkg.nix"));
    assert!(!holds(&errors, "syntax error", "input.nix"));
    assert!(warnings.is_empty());
    assert!(traces.is_empty());
}

#[test]
fn records_are_bucketed_by_level() {
    let stderr = [
        "@nix {\"action\":\"msg\",\"level\":0,\"msg\":\"e\"}\n",
        "@nix {\"action\":\"msg\",\"level\":1,\"msg\":\"w\"}\n",
        "@nix {\"action\":\"msg\",\"level\":2,\"msg\":\"t2\"}\n",
        "@nix {\"action\":\"msg\",\"level\":7,\"msg\":\"t7\"}\n",
        "@nix {\"action\":\"msg\",\"level\":-1,\"msg\":\"tneg\"}\n",
    ].concat();
    let (errors, warnings, traces) = split_stderr(stderr, "f.nix").ok().unwrap();
    assert_eq!(errors.len(), 1);
    assert!(holds(&errors, "e", "f.nix"));
    assert_eq!(warnings.len(), 1);
    assert!(holds(&warnings, "w", "f.nix"));
    assert_eq!(traces.len(), 3);
    assert!(holds(&traces, "t2", "f.nix"));
    assert!(holds(&traces, "t7", "f.nix"));
    assert!(holds(&traces, "tneg", "f.nix"));
}

#[test]
fn missing_file_falls_back_to_the_input_path() {
    let stderr = s("@nix {\"action\":\"msg\",\"level\":1,\"msg\":\"w\",\"file\":null}");
    let (_, warnings, _) = split_stderr(stderr, "/corpus/a.nix").ok().unwrap();
    assert!(holds(&warnings, "w", "/corpus/a.nix"));
}

#[test]
fn raw_msg_is_the_key_where_it_is_there() {
    let stderr = s("@nix {\"action\":\"msg\",\"level\":0,\"msg\":\"rendered\",\"raw_msg\":\"raw\"}");
    let (errors, _, _) = split_stderr(stderr, "a.nix").ok().unwrap();
    assert!(holds(&errors, "raw", "a.nix"));
    assert!(!errors.contains_key(&s("rendered")));
}

#[test]
fn keys_are_normalized() {
    let stderr = [
        "@nix {\"action\":\"msg\",\"level\":1,\"msg\":\"m\",\"raw_msg\":\"first --extra-deprecated-features builtins-abort-on-warn here\",\"file\":\"a.nix\"}\n",
        "@nix {\"action\":\"msg\",\"level\":1,\"msg\":\"second --extra-deprecated-features builtins-abort-on-warn there\",\"file\":\"b.nix\"}\n",
    ].concat();
    let (_, warnings, _) = split_stderr(stderr, "x.nix").ok().unwrap();
    assert_eq!(warnings.len(), 1);
    assert!(holds(&warnings, "Deprecated Feature: builtins-abort-on-warn", "a.nix"));
    assert!(holds(&warnings, "Deprecated Feature: builtins-abort-on-warn", "b.nix"));
}

#[test]
fn repeated_records_count_once() {
    let line = "@nix {\"action\":\"msg\",\"level\":0,\"msg\":\"e\",\"file\":\"a.nix\"}\n";
    let stderr = format!("{}{}{}", line, line, line);
    let (errors, _, _) = split_stderr(stderr, "x.nix").ok().unwrap();
    assert_eq!(errors.len(), 1);
    assert_eq!(errors.get(&s("e")).unwrap().len(), 1);
}

#[test]
fn order_of_records_does_not_matter() {
    let one = "@nix {\"action\":\"msg\",\"level\":0,\"msg\":\"e1\",\"file\":\"a.nix\"}\n";
    let two = "@nix {\"action\":\"msg\",\"level\":0,\"msg\":\"e2\",\"file\":\"b.nix\"}\n";
    let (ab, _, _) = split_stderr(format!("{}{}", one, two), "x.nix").ok().unwrap();
    let (ba, _, _) = split_stderr(format!("{}{}{}", two, one, two), "x.nix").ok().unwrap();
    assert!(ab.same(&ba));
}

#[test]
fn short_and_empty_lines_are_ignored() {
    let stderr = s("\n\nab\nabc\n@ni\n\n");
    let (errors, warnings, traces) = split_stderr(stderr, "x.nix").ok().unwrap();
    assert!(errors.is_empty() && warnings.is_empty() && traces.is_empty());
}

#[test]
fn empty_stream_gives_empty_logs() {
    let (errors, warnings, traces) = split_stderr(String::new(), "x.nix").ok().unwrap();
    assert!(errors.is_empty() && warnings.is_empty() && traces.is_empty());
}

#[test]
fn malformed_json_is_skipped() {
    let stderr = [
        "@nix {not json}\n",
        "@nix {\"action\":\"msg\",\"level\":0,\"msg\":\"kept\"}\n",
        "@nix {\"action\":\"msg\",\"level\":0}\n",
        "@nix {\"action\":\"msg\",\"level\":\"0\",\"msg\":\"text level\"}\n",
        "@nix {\"action\":\"msg\",\"level\":0,\"msg\":5}\n",
        "@nix {\"action\":\"msg\",\"level\":0,\"msg\":\"bad file\",\"file\":7}\n",
        "@nix {\"action\":\"msg\",\"level\":70000,\"msg\":\"level too large\"}\n",
        "@nix {\"action\":\"msg\",\"level\":1.5,\"msg\":\"level not whole\"}\n",
        "@nix [1,2,3]\n",
        "@nix\n",
        "@nix \n",
    ].concat();
    let (errors, warnings, traces) = split_stderr(stderr, "x.nix").ok().unwrap();
    assert_eq!(errors.len(), 1);
    assert!(holds(&errors, "kept", "x.nix"));
    assert!(warnings.is_empty() && traces.is_empty());
}

#[test]
fn unknown_members_are_ignored() {
    let stderr = s("@nix {\"action\":\"msg\",\"level\":0,\"msg\":\"e\",\"column\":3,\"line\":1}");
    let (errors, _, _) = split_stderr(stderr, "x.nix").ok().unwrap();
    assert!(holds(&errors, "e", "x.nix"));
}

#[test]
fn the_byte_after_the_tag_is_skipped_whatever_it_is() {
    let stderr = s("@nix:{\"action\":\"msg\",\"level\":0,\"msg\":\"e\"}");
    let (errors, _, _) = split_stderr(stderr, "x.nix").ok().unwrap();
    assert!(holds(&errors, "e", "x.nix"));
}

#[test]
fn unknown_prefix_fails() {
    let stderr = s("@nix {\"action\":\"msg\",\"level\":0,\"msg\":\"e\"}\nerror: something\n");
    match split_stderr(stderr, "x.nix") {
        Err(LogError::UnsupportedLinePrefix(head)) => assert_eq!(head, b"erro".to_vec()),
        _ => panic!("a line with an unknown prefix must end the reading"),
    }
}

#[test]
fn four_bytes_that_are_not_the_tag_fail() {
    match split_stderr(s("@nic"), "x.nix") {
        Err(LogError::UnsupportedLinePrefix(head)) => assert_eq!(head, b"@nic".to_vec()),
        _ => panic!("four bytes other than the tag must end the reading"),
    }
}

#[test]
fn prefix_of_four_bytes_may_cut_a_character() {
    match split_stderr(s("abc\u{e9}"), "x.nix") {
        Err(LogError::UnsupportedLinePrefix(head)) => assert_eq!(head, vec![0x61, 0x62, 0x63, 0xc3]),
        _ => panic!("five bytes other than the tag must end the reading"),
    }
}

#[test]
fn unknown_action_fails_and_names_the_action() {
    let stderr = s("@nix {\"action\":\"start\",\"level\":0,\"msg\":\"e\"}\n");
    match split_stderr(stderr, "x.nix") {
        Err(LogError::UnsupportedAction(action)) => assert_eq!(action, "start"),
        _ => panic!("an unknown action must end the reading"),
    }
}

#[test]
fn the_first_offending_line_decides() {
    let stderr = s("@nix {\"action\":\"stop\",\"level\":0,\"msg\":\"e\"}\nplain text\n");
    assert!(matches!(split_stderr(stderr, "x.nix"), Err(LogError::UnsupportedAction(_))));
    let stderr = s("plain text\n@nix {\"action\":\"stop\",\"level\":0,\"msg\":\"e\"}\n");
    assert!(matches!(split_stderr(stderr, "x.nix"), Err(LogError::UnsupportedLinePrefix(_))));
}

#[test]
fn read_line_classifies_lines() {
    assert!(matches!(read_line(b""), Ok(None)));
    assert!(matches!(read_line(b"abc"), Ok(None)));
    assert!(matches!(read_line(b"@nix"), Ok(None)));
    assert!(matches!(read_line(b"@nix {}"), Ok(None)));
    assert!(matches!(read_line(b"@nix null"), Ok(None)));
    assert!(matches!(read_line(b"abcd"), Err(LogError::UnsupportedLinePrefix(_))));
    match read_line(b"@nix {\"action\":\"msg\",\"level\":-3,\"msg\":\"m\",\"raw_msg\":null}") {
        Ok(Some(e)) => {
            assert_eq!(e.action, "msg");
            assert_eq!(e.level, -3);
            assert_eq!(e.msg, "m");
            assert_eq!(e.raw_msg, None);
            assert_eq!(e.file, None);
        }
        _ => panic!("a well-formed record must be read"),
    }
}

#[test]
fn read_entries_keeps_the_order_of_the_lines() {
    let stream = b"@nix {\"action\":\"msg\",\"level\":1,\"msg\":\"first\"}\n\n@nix {\"action\":\"msg\",\"level\":0,\"msg\":\"second\"}";
    let entries = read_entries(stream).ok().unwrap();
    assert_eq!(entries.len(), 2);
    assert_eq!(entries[0].msg, "first");
    assert_eq!(entries[1].msg, "second");
}

#[test]
fn from_members_wants_each_member_of_its_kind() {
    let text = |t: &str| Some(Member::Text(s(t)));
    let level = |n: i64| Some(Member::Number(Some(n)));
    let e = LogEntry::from_members(text("msg"), None, level(1), text("m"), Some(Member::Null)).unwrap();
    assert_eq!(e.level, 1);
    assert_eq!(e.file, None);
    assert_eq!(e.raw_msg, None);
    let e = LogEntry::from_members(text("msg"), text("f.nix"), level(-32768), text("m"), text("r")).unwrap();
    assert_eq!(e.level, -32768);
    assert_eq!(e.file, Some(s("f.nix")));
    assert_eq!(e.raw_msg, Some(s("r")));
    assert!(LogEntry::from_members(None, None, level(1), text("m"), None).is_none());
    assert!(LogEntry::from_members(text("msg"), None, None, text("m"), None).is_none());
    assert!(LogEntry::from_members(text("msg"), None, level(32768), text("m"), None).is_none());
    assert!(LogEntry::from_members(text("msg"), None, level(-32769), text("m"), None).is_none());
    assert!(LogEntry::from_members(text("msg"), None, Some(Member::Number(None)), text("m"), None).is_none());
    assert!(LogEntry::from_members(text("msg"), None, level(1), Some(Member::Null), None).is_none());
    assert!(LogEntry::from_members(text("msg"), Some(Member::Other), level(1), text("m"), None).is_none());
    assert!(LogEntry::from_members(text("msg"), None, level(1), text("m"), Some(Member::Other)).is_none());
}

#[test]
fn check_action_accepts_only_messages() {
    assert!(matches!(check_action(None), Ok(None)));
    assert!(matches!(check_action(Some(entry(0, "m", None, None))), Ok(Some(_))));
    let mut other = entry(0, "m", None, None);
    other.action = s("result");
    match check_action(Some(other)) {
        Err(LogError::UnsupportedAction(a)) => assert_eq!(a, "result"),
        _ => panic!("an action other than msg must be refused"),
    }
}

#[test]
fn bucket_keeps_the_records_of_one_severity() {
    let entries = vec![
        entry(0, "e1", None, None),
        entry(1, "w1", None, None),
        entry(5, "t1", None, None),
        entry(0, "e2", None, None),
    ];
    let errors = bucket(&entries, Severity::Error);
    assert_eq!(errors.len(), 2);
    assert_eq!(errors[0].msg, "e1");
    assert_eq!(errors[1].msg, "e2");
    assert_eq!(bucket(&entries, Severity::Warning).len(), 1);
    assert_eq!(bucket(&entries, Severity::Trace).len(), 1);
}

#[test]
fn dedup_merges_positions_under_one_key() {
    let entries = vec![
        entry(0, "m", Some("k"), Some("a.nix")),
        entry(0, "other", Some("k"), Some("b.nix")),
        entry(0, "k", None, None),
        entry(0, "m", Some("k"), Some("a.nix")),
    ];
    let log = dedup_log(entries, "in.nix");
    assert_eq!(log.len(), 1);
    let finds = log.get(&s("k")).unwrap();
    assert_eq!(finds.len(), 3);
    assert!(holds(&log, "k", "a.nix"));
    assert!(holds(&log, "k", "b.nix"));
    assert!(holds(&log, "k", "in.nix"));
}

#[test]
fn severity_follows_the_level() {
    assert!(entry(0, "m", None, None).severity() == Severity::Error);
    assert!(entry(1, "m", None, None).severity() == Severity::Warning);
    assert!(entry(2, "m", None, None).severity() == Severity::Trace);
    assert!(entry(-1, "m", None, None).severity() == Severity::Trace);
    assert!(entry(i16::MAX, "m", None, None).severity() == Severity::Trace);
}
