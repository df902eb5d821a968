//! Reading the members of a JSON object.
//!
//! The text is parsed by `serde_json`; what comes back is an object of
//! that crate, which this module only asks for single members.

use vstd::prelude::*;

verus! {

/// `serde_json::Value`: any JSON value.  It is carried through and never
/// looked into.
#[verifier::external_type_specification]
#[verifier::external_body]
pub struct ExJsonValue(serde_json::Value);

/// `serde_json::Map`: the members of a JSON object.  What it holds is
/// known only through `json_members`.
#[verifier::external_type_specification]
#[verifier::external_body]
#[verifier::reject_recursive_types(K)]
#[verifier::reject_recursive_types(V)]
pub struct ExJsonMap<K, V>(serde_json::Map<K, V>);

/// A parsed JSON object.
pub type JsonObject = serde_json::Map<String, serde_json::Value>;

/// What one member of an object holds, as far as a reader of text and
/// integer members has to know.
#[derive(Debug)]
pub enum Member {
    Null,
    Text(String),
    /// A number; the integer that it stands for where it is one that fits
    /// 64 bits with a sign.
    Number(Option<i64>),
    /// A truth value, an array or an object.
    Other,
}

/// The mathematical side of a `Member`.
pub enum MemberView {
    Null,
    Text(Seq<char>),
    Number(Option<i64>),
    Other,
}

impl View for Member {
    type V = MemberView;

    open spec fn view(&self) -> MemberView {
        match *self {
            Member::Null => MemberView::Null,
            Member::Text(s) => MemberView::Text(s@),
            Member::Number(n) => MemberView::Number(n),
            Member::Other => MemberView::Other,
        }
    }
}

/// The view of a member that may be missing.
pub open spec fn member_view(m: Option<Member>) -> Option<MemberView> {
    match m {
        Some(v) => Some(v@),
        None => None,
    }
}

/// The members of a parsed object, by key.
pub uninterp spec fn json_members(object: JsonObject) -> Map<Seq<char>, MemberView>;

/// The members of the object that the JSON text `doc` spells out; `None`
/// where `serde_json` does not read `doc` as one object.
pub uninterp spec fn json_object(doc: Seq<u8>) -> Option<Map<Seq<char>, MemberView>>;

/// `serde_json::from_slice`, asked for a `serde_json::Map`.  The contract
/// names what was parsed and claims nothing about which texts parse.
#[verifier::external_body]
pub(crate) fn parse_object(doc: &[u8]) -> (parsed: Option<JsonObject>)
    ensures
        match parsed {
            Some(object) => json_object(doc@) == Some(json_members(object)),
            None => json_object(doc@) is None,
        },
{
    serde_json::from_slice::<serde_json::Map<String, serde_json::Value>>(doc).ok()
}

/// `serde_json::Map::get`: the member under `key`, if there is one, with
/// its value brought into a `Member` (`Number::as_i64` for a number).
#[verifier::external_body]
pub(crate) fn member(object: &JsonObject, key: &str) -> (found: Option<Member>)
    ensures
        match found {
            Some(m) => json_members(*object).contains_key(key@) && json_members(*object)[key@] == m@,
            None => !json_members(*object).contains_key(key@),
        },
{
    match object.get(key)? {
        serde_json::Value::Null => Some(Member::Null),
        serde_json::Value::String(s) => Some(Member::Text(s.clone())),
        serde_json::Value::Number(n) => Some(Member::Number(n.as_i64())),
        _ => Some(Member::Other),
    }
}

/// The member of `members` under `key`.
pub open spec fn lookup(members: Map<Seq<char>, MemberView>, key: Seq<char>) -> Option<MemberView> {
    if members.contains_key(key) {
        Some(members[key])
    } else {
        None
    }
}

} // verus!
