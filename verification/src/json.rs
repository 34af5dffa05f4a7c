//! Reading untyped JSON: the two questions that the crawler asks of a page
//! that did not fit its schema.

use vstd::prelude::*;

verus! {

#[verifier::external_type_specification]
#[verifier::external_body]
pub struct ExValue(serde_json::Value);

/// The member `key` of a JSON value: the value stored under `key` where the
/// value is an object that has this key, nothing otherwise.
pub uninterp spec fn json_member(value: serde_json::Value, key: Seq<char>) -> Option<
    serde_json::Value,
>;

/// The text of a JSON value: its content where the value is a string,
/// nothing otherwise.
pub uninterp spec fn json_text(value: serde_json::Value) -> Option<Seq<char>>;

/// Calls `serde_json::Value::get` with a `&str` index. Trusted: the result is
/// the member of `value` under `key`, as `json_member` names it.
#[verifier::external_body]
fn member<'a>(value: &'a serde_json::Value, key: &str) -> (r: Option<&'a serde_json::Value>)
    ensures
        match r {
            Some(v) => json_member(*value, key@) == Some(*v),
            None => json_member(*value, key@) is None,
        },
{
    value.get(key)
}

/// Calls `serde_json::Value::as_str`. Trusted: the result is the text of
/// `value`, as `json_text` names it.
#[verifier::external_body]
fn text<'a>(value: &'a serde_json::Value) -> (r: Option<&'a str>)
    ensures
        match r {
            Some(s) => json_text(*value) == Some(s@),
            None => json_text(*value) is None,
        },
{
    value.as_str()
}

/// The text at `$.links.next` of `raw`, where there is one.
pub open spec fn raw_next(raw: serde_json::Value) -> Option<Seq<char>> {
    match json_member(raw, "links"@) {
        Some(links) => match json_member(links, "next"@) {
            Some(next) => json_text(next),
            None => None,
        },
        None => None,
    }
}

/// Reads `$.links.next` out of a page that is JSON but did not fit the
/// schema of a list, so that a crawl can go on behind it.
pub fn next_link(raw: &serde_json::Value) -> (r: Option<String>)
    ensures
        match r {
            Some(s) => raw_next(*raw) == Some(s@),
            None => raw_next(*raw) is None,
        },
{
    match member(raw, "links") {
        Some(links) => match member(links, "next") {
            Some(next) => match text(next) {
                Some(s) => Some(String::from_str(s)),
                None => None,
            },
            None => None,
        },
        None => None,
    }
}

} // verus!
