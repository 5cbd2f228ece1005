//! Reading JSON documents. A document is its text, and so is each part of it.

use crate::membership::{opt_text, texts};
use serde_json::Value;
use vstd::prelude::*;

verus! {

/// The compact text of what an object document holds under a key.
pub uninterp spec fn json_field_of(doc: Seq<char>, key: Seq<char>) -> Option<Seq<char>>;

/// The text that a document is, where it is one.
pub uninterp spec fn json_text_of(doc: Seq<char>) -> Option<Seq<char>>;

/// The truth value that a document is, where it is one.
pub uninterp spec fn json_bool_of(doc: Seq<char>) -> Option<bool>;

/// The number that a document is, where it is one that fits.
pub uninterp spec fn json_u64_of(doc: Seq<char>) -> Option<u64>;

/// The compact texts of the items of a document that is an array.
pub uninterp spec fn json_items_of(doc: Seq<char>) -> Option<Seq<Seq<char>>>;

/// Calls `serde_json::from_str`, `Value::get` with the key and
/// `Value::to_string`. The outcome depends on the document and the key alone.
#[verifier::external_body]
pub(crate) fn json_field(doc: &str, key: &str) -> (r: Option<String>)
    ensures
        opt_text(r) == json_field_of(doc@, key@),
{
    let value: Value = serde_json::from_str(doc).ok()?;
    value.get(key).map(|v| v.to_string())
}

/// Calls `serde_json::from_str` and `Value::as_str`. The outcome depends on
/// the document alone.
#[verifier::external_body]
pub(crate) fn json_text(doc: &str) -> (r: Option<String>)
    ensures
        opt_text(r) == json_text_of(doc@),
{
    let value: Value = serde_json::from_str(doc).ok()?;
    value.as_str().map(|s| s.to_string())
}

/// Calls `serde_json::from_str` and `Value::as_bool`. The outcome depends on
/// the document alone.
#[verifier::external_body]
pub(crate) fn json_bool(doc: &str) -> (r: Option<bool>)
    ensures
        r == json_bool_of(doc@),
{
    let value: Value = serde_json::from_str(doc).ok()?;
    value.as_bool()
}

/// Calls `serde_json::from_str` and `Value::as_u64`. The outcome depends on
/// the document alone.
#[verifier::external_body]
pub(crate) fn json_u64(doc: &str) -> (r: Option<u64>)
    ensures
        r == json_u64_of(doc@),
{
    let value: Value = serde_json::from_str(doc).ok()?;
    value.as_u64()
}

/// The items of a document as texts.
pub open spec fn opt_texts(o: Option<Vec<String>>) -> Option<Seq<Seq<char>>> {
    match o {
        Some(v) => Some(texts(v@)),
        None => None,
    }
}

/// Calls `serde_json::from_str`, `Value::as_array` and `Value::to_string` on
/// each item. The outcome depends on the document alone.
#[verifier::external_body]
pub(crate) fn json_items(doc: &str) -> (r: Option<Vec<String>>)
    ensures
        opt_texts(r) == json_items_of(doc@),
{
    let value: Value = serde_json::from_str(doc).ok()?;
    value.as_array().map(|items| items.iter().map(|v| v.to_string()).collect())
}

/// What a document holds under a key, or under a second one where the first is
/// not there.
pub open spec fn either_field(doc: Seq<char>, key: Seq<char>, other: Seq<char>) -> Option<
    Seq<char>,
> {
    match json_field_of(doc, key) {
        Some(f) => Some(f),
        None => json_field_of(doc, other),
    }
}

pub fn field_or(doc: &str, key: &str, other: &str) -> (r: Option<String>)
    ensures
        opt_text(r) == either_field(doc@, key@, other@),
{
    let first = json_field(doc, key);
    if first.is_some() {
        return first;
    }
    json_field(doc, other)
}

/// The text under a key, or under a second one where the first is not there.
/// What is there but is no text counts as there.
pub open spec fn either_text(doc: Seq<char>, key: Seq<char>, other: Seq<char>) -> Option<Seq<char>> {
    match either_field(doc, key, other) {
        Some(f) => json_text_of(f),
        None => None,
    }
}

pub fn text_field(doc: &str, key: &str, other: &str) -> (r: Option<String>)
    ensures
        opt_text(r) == either_text(doc@, key@, other@),
{
    match field_or(doc, key, other) {
        Some(f) => json_text(f.as_str()),
        None => None,
    }
}

/// The number under a key, or under a second one where the first is not there.
pub open spec fn either_u64(doc: Seq<char>, key: Seq<char>, other: Seq<char>) -> Option<u64> {
    match either_field(doc, key, other) {
        Some(f) => json_u64_of(f),
        None => None,
    }
}

pub fn u64_field(doc: &str, key: &str, other: &str) -> (r: Option<u64>)
    ensures
        r == either_u64(doc@, key@, other@),
{
    match field_or(doc, key, other) {
        Some(f) => json_u64(f.as_str()),
        None => None,
    }
}

/// The truth value under a key.
pub open spec fn bool_at(doc: Seq<char>, key: Seq<char>) -> Option<bool> {
    match json_field_of(doc, key) {
        Some(f) => json_bool_of(f),
        None => None,
    }
}

pub fn bool_field(doc: &str, key: &str) -> (r: Option<bool>)
    ensures
        r == bool_at(doc@, key@),
{
    match json_field(doc, key) {
        Some(f) => json_bool(f.as_str()),
        None => None,
    }
}

/// The items of the array under a key; none where there is no array.
pub open spec fn items_at(doc: Seq<char>, key: Seq<char>) -> Seq<Seq<char>> {
    match json_field_of(doc, key) {
        Some(f) => match json_items_of(f) {
            Some(items) => items,
            None => Seq::empty(),
        },
        None => Seq::empty(),
    }
}

pub fn item_fields(doc: &str, key: &str) -> (r: Vec<String>)
    ensures
        texts(r@) == items_at(doc@, key@),
{
    let none: Vec<String> = Vec::new();
    proof {
        assert(texts(none@) =~= Seq::<Seq<char>>::empty());
    }
    match json_field(doc, key) {
        Some(f) => match json_items(f.as_str()) {
            Some(items) => items,
            None => none,
        },
        None => none,
    }
}

} // verus!
