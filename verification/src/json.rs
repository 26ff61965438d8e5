//! The part of a JSON value that the rest of the library reads.

use vstd::prelude::*;

verus! {

/// Declares `serde_json::Value`. It is carried through as it is and read only by
/// [`string_member`].
#[verifier::external_type_specification]
#[verifier::external_body]
pub struct ExValue(serde_json::Value);

/// The members of a JSON object that are strings, by their names. A value that
/// is no object has none.
pub uninterp spec fn string_members(v: serde_json::Value) -> Map<Seq<char>, Seq<char>>;

/// Calls `serde_json::Value::get` with a string index and `Value::as_str` on what
/// it finds: the text of the member called `key`, when `v` is an object that has
/// such a member and that member is a string.
#[verifier::external_body]
pub(crate) fn string_member(v: &serde_json::Value, key: &str) -> (res: Option<String>)
    ensures
        match res {
            Some(s) => string_members(*v).contains_key(key@) && s@ == string_members(*v)[key@],
            None => !string_members(*v).contains_key(key@),
        },
{
    v.get(key).and_then(|member| member.as_str()).map(|s| s.to_owned())
}

/// The text of the string member called `key`, or no text at all.
pub open spec fn member_or_empty(v: serde_json::Value, key: Seq<char>) -> Seq<char> {
    if string_members(v).contains_key(key) {
        string_members(v)[key]
    } else {
        Seq::empty()
    }
}

/// The text of the string member called `key`, or an empty string.
pub fn string_or_empty(v: &serde_json::Value, key: &str) -> (res: String)
    ensures
        res@ == member_or_empty(*v, key@),
{
    match string_member(v, key) {
        Some(s) => s,
        None => String::new(),
    }
}

} // verus!
