use parser_diff::errors::{AddError, AddErrorResult, ErrorGroup, Failure};

fn s(text: &str) -> String {
    text.to_string()
}

#[test]
fn fresh_group_has_no_content() {
    let g = ErrorGroup::from(s("Building Index failed with errors: "));
    assert_eq!(g.msg, "Building Index failed with errors: ");
    assert!(!g.has_content());
    assert!(g.to_result().is_ok());
}

#[test]
fn add_puts_failures_in_order() {
    let mut g = ErrorGroup::from(s("g"));
    g.add(Failure::Message(s("one")));
    g.add(Failure::Message(s("two")));
    assert!(g.has_content());
    assert_eq!(g.errors.len(), 2);
    assert!(matches!(&g.errors[0], Failure::Message(m) if m == "one"));
    assert!(matches!(&g.errors[1], Failure::Message(m) if m == "two"));
}

#[test]
fn group_with_content_is_an_error() {
    let mut g = ErrorGroup::from(s("g"));
    g.add(Failure::Message(s("one")));
    match g.to_result() {
        Err(back) => {
            assert_eq!(back.msg, "g");
            assert_eq!(back.errors.len(), 1);
        }
        Ok(()) => panic!("a group that holds a failure is an error"),
    }
}

#[test]
fn empty_group_is_not_handed_over() {
    let mut outer = ErrorGroup::from(s("outer"));
    let inner = ErrorGroup::from(s("inner"));
    let back = inner.add_error_to(&mut outer);
    assert!(!back.has_content());
    assert!(!outer.has_content());
}

#[test]
fn group_with_content_is_handed_over_whole() {
    let mut outer = ErrorGroup::from(s("outer"));
    outer.add(Failure::Message(s("first")));
    let mut inner = ErrorGroup::from(s("inner"));
    inner.add(Failure::Message(s("a")));
    inner.add(Failure::Message(s("b")));
    inner.add_error_to(&mut outer).add(Failure::Message(s("last")));
    assert_eq!(outer.errors.len(), 3);
    match &outer.errors[1] {
        Failure::Group(g) => {
            assert_eq!(g.msg, "inner");
            assert_eq!(g.errors.len(), 2);
        }
        Failure::Message(_) => panic!("the inner group is handed over as a group"),
    }
    assert!(matches!(&outer.errors[2], Failure::Message(m) if m == "last"));
}

#[test]
fn result_hands_its_failure_over() {
    let mut g = ErrorGroup::from(s("g"));
    let ok: Result<u8, Failure> = Ok(7);
    assert!(matches!(ok.add_error_to(&mut g), Ok(7)));
    assert!(!g.has_content());
    let failed: Result<u8, Failure> = Err(Failure::Message(s("broken")));
    match failed.add_error_to(&mut g) {
        Err(back) => assert_eq!(back.errors.len(), 1),
        Ok(_) => panic!("a failure stays a failure"),
    }
    assert!(matches!(&g.errors[0], Failure::Message(m) if m == "broken"));
}

#[test]
fn failures_and_texts_can_be_added() {
    let mut g = ErrorGroup::from(s("g"));
    s("plain").add_error_to(&mut g);
    Failure::Message(s("wrapped")).add_error_to(&mut g);
    assert_eq!(g.errors.len(), 2);
    assert!(matches!(&g.errors[0], Failure::Message(m) if m == "plain"));
    assert!(matches!(&g.errors[1], Failure::Message(m) if m == "wrapped"));
}

#[test]
fn group_is_shown_with_rules_and_numbers() {
    let mut g = ErrorGroup::from(s("Scraping failed"));
    g.add(Failure::Message(s("one")));
    g.add(Failure::Message(s("two")));
    let expected = format!(
        "ErrorGroup({}):\n+-+{:->40}\n  +{:-^40}\n  | {}\n  +{:-^40}\n  | {}\n  +{:->40}",
        "Scraping failed", "-", 1, "one", 2, "two", "-"
    );
    assert_eq!(g.to_text(), expected);
}

#[test]
fn empty_group_is_shown_as_two_rules() {
    let g = ErrorGroup::from(s("nothing"));
    assert_eq!(
        g.to_text(),
        "ErrorGroup(nothing):\n+-+----------------------------------------\n  +----------------------------------------"
    );
}

#[test]
fn nested_group_is_shown_inside_its_item() {
    let mut inner = ErrorGroup::from(s("inner"));
    inner.add(Failure::Message(s("a")));
    let inner_text = inner.to_text();
    let mut outer = ErrorGroup::from(s("outer"));
    inner.add_error_to(&mut outer);
    let expected = format!(
        "ErrorGroup(outer):\n+-+{:->40}\n  +{:-^40}\n  | {}\n  +{:->40}",
        "-", 1, inner_text, "-"
    );
    assert_eq!(outer.to_text(), expected);
    assert!(matches!(&outer.errors[0], Failure::Group(g) if g.to_text() == inner_text));
}

#[test]
fn item_numbers_with_two_digits_are_centered() {
    let mut g = ErrorGroup::from(s("many"));
    for i in 0..12 {
        g.add(Failure::Message(format!("e{}", i)));
    }
    let text = g.to_text();
    assert!(text.contains(&format!("\n  +{:-^40}\n  | e9\n", 10)));
    assert!(text.contains("\n  +-------------------12-------------------\n  | e11\n"));
}
