//! A plain-value picture of a decoded JSON document, and lookups over it.
//!
//! Rollout lines are decoded by `serde_json` outside the library and handed in
//! as `JsonValue`; every decision the library takes about a line reads this
//! type, so it is specified over it.

use vstd::prelude::*;

use crate::text::str_eq;

verus! {

/// A JSON document as `serde_json` holds it; the library carries it through
/// without looking inside.
#[verifier::external_type_specification]
#[verifier::external_body]
pub struct ExJsonDocument(serde_json::Value);

/// A JSON number: its value when it is a non-negative integer that fits in
/// `u64`, and its textual form.
#[derive(Debug, Clone, PartialEq, Eq)]
pub struct JsonNumber {
    pub as_u64: Option<u64>,
    pub text: String,
}

/// A decoded JSON value. Object members keep the order they were decoded in.
#[derive(Debug, PartialEq, Eq)]
pub enum JsonValue {
    Null,
    Bool(bool),
    Number(JsonNumber),
    String(String),
    Array(Vec<JsonValue>),
    Object(Vec<(String, JsonValue)>),
}

/// The value of the first member named `key` among `entries`.
pub open spec fn entry_lookup(entries: Seq<(String, JsonValue)>, key: Seq<char>) -> Option<
    JsonValue,
>
    decreases entries.len(),
{
    if entries.len() == 0 {
        None
    } else if entries[0].0@ == key {
        Some(entries[0].1)
    } else {
        entry_lookup(entries.drop_first(), key)
    }
}

/// The member `key` of `v` when `v` is an object that has one.
pub open spec fn member(v: JsonValue, key: Seq<char>) -> Option<JsonValue> {
    match v {
        JsonValue::Object(entries) => entry_lookup(entries@, key),
        _ => None,
    }
}

/// The characters of member `key` when it is a JSON string.
pub open spec fn member_str(v: JsonValue, key: Seq<char>) -> Option<Seq<char>> {
    match member(v, key) {
        Some(JsonValue::String(s)) => Some(s@),
        _ => None,
    }
}

/// `true` when member `key` is absent or `null`.
pub open spec fn member_absent_or_null(v: JsonValue, key: Seq<char>) -> bool {
    match member(v, key) {
        None => true,
        Some(JsonValue::Null) => true,
        _ => false,
    }
}

/// An optional string member: absent or `null` reads as `Some(None)`, a
/// string as `Some(Some(s))`, anything else is malformed (`None`).
pub open spec fn optional_str(v: JsonValue, key: Seq<char>) -> Option<Option<Seq<char>>> {
    if member_absent_or_null(v, key) {
        Some(None)
    } else {
        match member_str(v, key) {
            Some(s) => Some(Some(s)),
            None => None,
        }
    }
}

proof fn lemma_entry_lookup_skip(entries: Seq<(String, JsonValue)>, key: Seq<char>, i: int)
    requires
        0 <= i < entries.len(),
        entries[i].0@ != key,
    ensures
        entry_lookup(entries.skip(i), key) == entry_lookup(entries.skip(i + 1), key),
{
    assert(entries.skip(i).drop_first() =~= entries.skip(i + 1));
}

/// The member `key` of `v`, borrowed.
pub fn get_member<'a>(v: &'a JsonValue, key: &str) -> (r: Option<&'a JsonValue>)
    ensures
        match r {
            Some(x) => member(*v, key@) == Some(*x),
            None => member(*v, key@) is None,
        },
{
    match v {
        JsonValue::Object(entries) => {
            let mut i: usize = 0;
            assert(entries@.skip(0) =~= entries@);
            while i < entries.len()
                invariant
                    *v == JsonValue::Object(*entries),
                    i <= entries@.len(),
                    entry_lookup(entries@, key@) == entry_lookup(entries@.skip(i as int), key@),
                decreases entries@.len() - i,
            {
                let entry = &entries[i];
                if str_eq(entry.0.as_str(), key) {
                    assert(entries@.skip(i as int)[0] == entries@[i as int]);
                    assert(entry_lookup(entries@.skip(i as int), key@) == Some(entries@[i as int].1));
                    return Some(&entry.1);
                }
                proof {
                    lemma_entry_lookup_skip(entries@, key@, i as int);
                }
                i = i + 1;
            }
            assert(entries@.skip(i as int) =~= Seq::<(String, JsonValue)>::empty());
            None
        },
        _ => None,
    }
}

/// Member `key` of `v` when it is a JSON string.
pub fn get_str<'a>(v: &'a JsonValue, key: &str) -> (r: Option<&'a String>)
    ensures
        match r {
            Some(s) => member_str(*v, key@) == Some(s@),
            None => member_str(*v, key@) is None,
        },
{
    match get_member(v, key) {
        Some(JsonValue::String(s)) => Some(s),
        _ => None,
    }
}

/// Reads an optional string member (see [`optional_str`]).
pub fn get_optional_str(v: &JsonValue, key: &str) -> (r: Option<Option<String>>)
    ensures
        match r {
            None => optional_str(*v, key@) is None,
            Some(None) => optional_str(*v, key@) == Some(None::<Seq<char>>),
            Some(Some(s)) => optional_str(*v, key@) == Some(Some(s@)),
        },
{
    match get_member(v, key) {
        None => Some(None),
        Some(JsonValue::Null) => Some(None),
        Some(JsonValue::String(s)) => Some(Some(s.clone())),
        Some(_) => None,
    }
}

/// Removes and returns the first member named `key` of an object value.
pub fn take_member(v: JsonValue, key: &str) -> (r: Option<JsonValue>)
    ensures
        r == member(v, key@),
{
    let ghost wanted = member(v, key@);
    match v {
        JsonValue::Object(entries) => {
            let ghost orig = entries@;
            assert(wanted == entry_lookup(orig, key@));
            let mut entries = entries;
            let mut i: usize = 0;
            assert(orig.skip(0) =~= orig);
            while i < entries.len()
                invariant
                    entries@ == orig,
                    wanted == entry_lookup(orig, key@),
                    wanted == member(v, key@),
                    i <= orig.len(),
                    entry_lookup(orig, key@) == entry_lookup(orig.skip(i as int), key@),
                decreases orig.len() - i,
            {
                if str_eq(entries[i].0.as_str(), key) {
                    assert(orig.skip(i as int)[0] == orig[i as int]);
                    assert(entry_lookup(orig.skip(i as int), key@) == Some(orig[i as int].1));
                    let entry = entries.remove(i);
                    assert(entry == orig[i as int]);
                    let value = entry.1;
                    assert(wanted == Some(value));
                    return Some(value);
                }
                proof {
                    lemma_entry_lookup_skip(orig, key@, i as int);
                }
                i = i + 1;
            }
            assert(orig.skip(i as int) =~= Seq::<(String, JsonValue)>::empty());
            None
        },
        _ => None,
    }
}


/// The text of a JSON document as `serde_json` pretty-prints it.
pub uninterp spec fn json_pretty_text(value: serde_json::Value) -> Seq<char>;

/// The text of a JSON document as `serde_json` writes it compactly
/// (its `Display`).
pub uninterp spec fn json_compact_text(value: serde_json::Value) -> Seq<char>;

/// Wraps `serde_json::to_string_pretty` on a JSON document; a document is
/// always serializable, and the compact form stands in should it fail.
#[verifier::external_body]
pub(crate) fn pretty_json_text(value: &serde_json::Value) -> (r: String)
    ensures
        r@ == json_pretty_text(*value),
{
    match serde_json::to_string_pretty(value) {
        Ok(text) => text,
        Err(_) => value.to_string(),
    }
}

/// Wraps the `Display` of `serde_json::Value`, which writes the document as
/// compact JSON (the text `serde_json::to_string` gives).
#[verifier::external_body]
pub(crate) fn compact_json_text(value: &serde_json::Value) -> (r: String)
    ensures
        r@ == json_compact_text(*value),
{
    value.to_string()
}

} // verus!
