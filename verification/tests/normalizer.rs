use parser_diff::normalize::{accept_capture, has_marker, rewrite, simplify_msg};

#[test]
fn marker_with_name_becomes_prefix_and_name() {
    let out = simplify_msg(
        "warning: you used --extra-deprecated-features builtins-abort-on-warn in your config".to_string(),
    );
    assert_eq!(out, "Deprecated Feature: builtins-abort-on-warn");
}

#[test]
fn marker_at_the_start_and_name_at_the_end() {
    let out = simplify_msg("--extra-deprecated-features url-literals".to_string());
    assert_eq!(out, "Deprecated Feature: url-literals");
}

#[test]
fn message_without_marker_is_unchanged() {
    let out = simplify_msg("syntax error, unexpected IN".to_string());
    assert_eq!(out, "syntax error, unexpected IN");
}

#[test]
fn empty_message_is_unchanged() {
    assert_eq!(simplify_msg(String::new()), "");
}

#[test]
fn marker_without_name_is_unchanged() {
    let out = simplify_msg("use --extra-deprecated-features ".to_string());
    assert_eq!(out, "use --extra-deprecated-features ");
}

#[test]
fn marker_followed_by_punctuation_is_unchanged() {
    let out = simplify_msg("use --extra-deprecated-features !".to_string());
    assert_eq!(out, "use --extra-deprecated-features !");
}

#[test]
fn name_stops_at_the_first_other_character() {
    let out = simplify_msg("--extra-deprecated-features rec_set.old, and more".to_string());
    assert_eq!(out, "Deprecated Feature: rec_set");
}

#[test]
fn first_marker_wins() {
    let out = simplify_msg(
        "--extra-deprecated-features one then --extra-deprecated-features two".to_string(),
    );
    assert_eq!(out, "Deprecated Feature: one");
}

#[test]
fn name_may_repeat_the_marker_text() {
    let out = simplify_msg(
        "--extra-deprecated-features --extra-deprecated-features x".to_string(),
    );
    assert_eq!(out, "Deprecated Feature: --extra-deprecated-features");
    assert_eq!(simplify_msg(out.clone()), out);
}

#[test]
fn normalizing_twice_is_normalizing_once() {
    let inputs = [
        "plain message",
        "x --extra-deprecated-features a-b_c9 y",
        "Deprecated Feature: a",
        "--extra-deprecated-features --extra-deprecated-features x",
        "--extra-deprecated-features ",
        "",
    ];
    for input in inputs {
        let once = simplify_msg(input.to_string());
        let twice = simplify_msg(once.clone());
        assert_eq!(once, twice);
    }
}

#[test]
fn marker_is_found_anywhere() {
    assert!(has_marker("--extra-deprecated-features x"));
    assert!(has_marker("a --extra-deprecated-features "));
    assert!(!has_marker("a --extra-deprecated-features"));
    assert!(!has_marker("a --extra-deprecated-feature x"));
    assert!(!has_marker("--Extra-deprecated-features x"));
    assert!(!has_marker(""));
}

#[test]
fn capture_behind_the_marker_is_accepted() {
    let msg = "a --extra-deprecated-features url-literals, b";
    assert_eq!(accept_capture(msg, Some("url-literals".to_string())), Some("url-literals".to_string()));
    assert_eq!(accept_capture(msg, Some("url".to_string())), Some("url".to_string()));
}

#[test]
fn capture_that_does_not_follow_the_marker_is_refused() {
    let msg = "a --extra-deprecated-features url-literals, b";
    assert_eq!(accept_capture(msg, Some("literals".to_string())), None);
    assert_eq!(accept_capture(msg, Some("a".to_string())), None);
    assert_eq!(accept_capture("no marker here", Some("marker".to_string())), None);
    assert_eq!(accept_capture("--extra-deprecated-feature x", Some("x".to_string())), None);
}

#[test]
fn empty_capture_is_refused() {
    assert_eq!(accept_capture("a --extra-deprecated-features x", Some(String::new())), None);
}

#[test]
fn capture_with_a_space_is_refused() {
    assert_eq!(accept_capture("a --extra-deprecated-features x y", Some("x y".to_string())), None);
    assert_eq!(accept_capture("a --extra-deprecated-features  ", Some(" ".to_string())), None);
}

#[test]
fn no_capture_gives_no_feature() {
    assert_eq!(accept_capture("a --extra-deprecated-features x", None), None);
}

#[test]
fn rewrite_puts_the_prefix_before_the_name() {
    assert_eq!(
        rewrite("whatever".to_string(), Some("ca-derivations".to_string())),
        "Deprecated Feature: ca-derivations"
    );
}

#[test]
fn rewrite_without_a_feature_keeps_the_message() {
    assert_eq!(rewrite("whatever".to_string(), None), "whatever");
}
