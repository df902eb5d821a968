//! Message normalisation: messages that only say which deprecated feature
//! was used collapse to one key per feature.

use crate::finds::Message;
use crate::text::{chars_of, has_char, holds, holds_text, occurs_at};
use vstd::prelude::*;
use vstd::string::StringExecFns;

verus! {

/// The text that announces a deprecated feature; the feature's name
/// follows it.
pub open spec fn marker() -> Seq<char> {
    "--extra-deprecated-features "@
}

/// What a normalised deprecation message starts with.
pub open spec fn prefix() -> Seq<char> {
    "Deprecated Feature: "@
}

/// The regular expression that finds the marker and captures the name
/// behind it.
pub open spec fn pattern() -> Seq<char> {
    r"--extra-deprecated-features (?<feature_name>[\w-]+)\b"@
}

/// The capture group of `pattern()` that holds the name.
pub open spec fn group() -> Seq<char> {
    "feature_name"@
}

/// What the first match of the regular expression `pattern` in `text`
/// captured in its group `group`; `None` where the pattern does not
/// compile, nothing matches, or the group took no part in the match.
pub uninterp spec fn regex_capture(pattern: Seq<char>, group: Seq<char>, text: Seq<char>) -> Option<
    Seq<char>,
>;

/// `regex::Regex::new`, `Regex::captures` and `Captures::name`: the text
/// that the named group of the leftmost match holds.  The contract only
/// gives that text its name, `regex_capture`; nothing is claimed of what a
/// given pattern matches.
#[verifier::external_body]
fn capture_group(pattern: &str, group: &str, text: &str) -> (found: Option<String>)
    ensures
        found.is_some() == regex_capture(pattern@, group@, text@).is_some(),
        found matches Some(s) ==> regex_capture(pattern@, group@, text@) == Some(s@),
{
    let re = regex::Regex::new(pattern).ok()?;
    let captures = re.captures(text)?;
    let hit = captures.name(group)?;
    Some(hit.as_str().to_string())
}

/// The feature name that a capture stands for in `msg`: the capture
/// itself, provided that it is not empty, is free of spaces and stands
/// right behind the marker somewhere in `msg`.
pub open spec fn accepted(msg: Seq<char>, capture: Option<Seq<char>>) -> Option<Seq<char>> {
    match capture {
        Some(name) => if name.len() > 0 && !name.contains(' ') && holds(msg, marker() + name) {
            Some(name)
        } else {
            None
        },
        None => None,
    }
}

/// The deprecated feature that `msg` names, if it names one: the name
/// that the regular expression captures, as far as it is accepted.
pub open spec fn feature_of(msg: Seq<char>) -> Option<Seq<char>> {
    accepted(msg, regex_capture(pattern(), group(), msg))
}

/// A message with the feature that it names: the whole message gives way
/// to the prefix and the name.
pub open spec fn rewritten(msg: Seq<char>, feature: Option<Seq<char>>) -> Seq<char> {
    match feature {
        Some(name) => prefix() + name,
        None => msg,
    }
}

/// The normal form of a message.
pub open spec fn normalized(msg: Seq<char>) -> Seq<char> {
    rewritten(msg, feature_of(msg))
}

/// Whether the marker stands somewhere in `msg`.  A message without it
/// names no feature.
pub fn has_marker(msg: &str) -> (b: bool)
    ensures
        b == holds(msg@, marker()),
{
    let hay = chars_of(msg);
    let needle = chars_of("--extra-deprecated-features ");
    holds_text(hay.as_slice(), needle.as_slice())
}

/// What stands at the start of a text stands wherever the text
/// stands.
pub proof fn lemma_holds_front(hay: Seq<char>, front: Seq<char>, back: Seq<char>)
    requires
        holds(hay, front + back),
    ensures
        holds(hay, front),
{
    let i = choose|i: int| occurs_at(hay, front + back, i);
    assert(hay.subrange(i, i + front.len()) =~= (front + back).subrange(0, front.len() as int));
    assert((front + back).subrange(0, front.len() as int) =~= front);
    assert(occurs_at(hay, front, i));
}

/// Decides whether a capture is a feature name of `msg`.
pub fn accept_capture(msg: &str, capture: Option<String>) -> (feature: Option<String>)
    ensures
        feature.deep_view() == accepted(msg@, capture.deep_view()),
{
    match capture {
        Some(name) => {
            let letters = chars_of(name.as_str());
            if letters.len() == 0 || has_char(letters.as_slice(), ' ') {
                return None;
            }
            let hay = chars_of(msg);
            let needle = chars_of("--extra-deprecated-features ".to_owned().concat(name.as_str()).as_str());
            if holds_text(hay.as_slice(), needle.as_slice()) {
                Some(name)
            } else {
                None
            }
        },
        None => None,
    }
}

/// Puts the normal form in the place of a message that names `feature`.
pub fn rewrite(msg: Message, feature: Option<String>) -> (out: Message)
    ensures
        out@ == rewritten(msg@, feature.deep_view()),
{
    match feature {
        Some(name) => "Deprecated Feature: ".to_owned().concat(name.as_str()),
        None => msg,
    }
}

/// Normalises a message: one that names a deprecated feature becomes the
/// prefix and that name, any other stays as it is.
pub fn simplify_msg(msg: Message) -> (out: Message)
    ensures
        out@ == normalized(msg@),
        !holds(msg@, marker()) ==> out@ == msg@,
{
    if !has_marker(msg.as_str()) {
        proof {
            if let Some(name) = regex_capture(pattern(), group(), msg@) {
                if holds(msg@, marker() + name) {
                    lemma_holds_front(msg@, marker(), name);
                }
            }
        }
        return msg;
    }
    let capture = capture_group(
        r"--extra-deprecated-features (?<feature_name>[\w-]+)\b",
        "feature_name",
        msg.as_str(),
    );
    let feature = accept_capture(msg.as_str(), capture);
    rewrite(msg, feature)
}

/// A normal form holds no marker.
pub proof fn lemma_rewritten_has_no_marker(name: Seq<char>)
    requires
        !name.contains(' '),
    ensures
        !holds(prefix() + name, marker()),
{
    reveal_strlit("--extra-deprecated-features ");
    reveal_strlit("Deprecated Feature: ");
    let out = prefix() + name;
    assert forall|i: int| !occurs_at(out, marker(), i) by {
        if occurs_at(out, marker(), i) {
            let at = i + 27;
            assert(out.subrange(i, i + marker().len())[27] == out[at]);
            assert(marker()[27] == ' ');
            assert(out[at] == name[at - 20]);
            assert(name.contains(name[at - 20]));
        }
    }
}

/// Normalising twice is normalising once.
pub proof fn lemma_normalized_idempotent(msg: Seq<char>)
    ensures
        normalized(normalized(msg)) == normalized(msg),
{
    match feature_of(msg) {
        Some(name) => {
            lemma_rewritten_has_no_marker(name);
            let out = prefix() + name;
            if let Some(again) = feature_of(out) {
                lemma_holds_front(out, marker(), again);
            }
        },
        None => {},
    }
}

} // verus!
