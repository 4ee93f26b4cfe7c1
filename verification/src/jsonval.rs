//! Trusted boundary around `serde_json`.
//!
//! The library carries structured blobs (document metadata, entity
//! properties, raw query results) as opaque `serde_json::Value`s.  Verified
//! code never looks inside a `Value` directly; it goes through the small
//! wrappers below, each of which makes exactly one kind of `serde_json`
//! call.  What a call returns depends on its arguments alone, so each
//! observation is given a name, and the wrapper's contract says the call
//! returns exactly that: code above this boundary can then state when it
//! succeeds and what it hands back.

use vstd::prelude::*;

verus! {

#[verifier::external_type_specification]
#[verifier::external_body]
pub struct ExJsonValue(serde_json::Value);

/// The value a piece of text parses to, or nothing when it is not JSON.
pub uninterp spec fn spec_json_of(s: Seq<char>) -> Option<serde_json::Value>;

/// The member stored under a key, when the value is an object holding it.
pub uninterp spec fn spec_member(v: serde_json::Value, key: Seq<char>) -> Option<
    serde_json::Value,
>;

/// The character content, when the value is a JSON string.
pub uninterp spec fn spec_text(v: serde_json::Value) -> Option<Seq<char>>;

/// The element sequence, when the value is a JSON list.
pub uninterp spec fn spec_elements(v: serde_json::Value) -> Option<Seq<serde_json::Value>>;

/// Whether the value is JSON null.
pub uninterp spec fn spec_null(v: serde_json::Value) -> bool;

/// The decimal text of the value, when it is a JSON number.
pub uninterp spec fn spec_number_text(v: serde_json::Value) -> Option<Seq<char>>;

/// Whether the value is a JSON object.
pub uninterp spec fn spec_is_obj(v: serde_json::Value) -> bool;

/// Relies on serde_json::from_str::<Value>: parsing is a function of the
/// text alone; failure carries the error's display text.
#[verifier::external_body]
pub fn parse_json(s: &str) -> (r: Result<serde_json::Value, String>)
    ensures
        match spec_json_of(s@) {
            Some(v) => r matches Ok(w) && w == v,
            None => r is Err,
        },
{
    serde_json::from_str::<serde_json::Value>(s).map_err(|e| e.to_string())
}

/// Relies on serde_json::Value::get: member lookup by key on an object;
/// None on absent keys and non-objects.
#[verifier::external_body]
pub fn json_get<'a>(v: &'a serde_json::Value, key: &str) -> (r: Option<&'a serde_json::Value>)
    ensures
        match spec_member(*v, key@) {
            Some(m) => r matches Some(w) && *w == m,
            None => r is None,
        },
{
    v.get(key)
}

/// Relies on serde_json::Value::as_str: the content of a JSON string, None
/// for every other kind of value.
#[verifier::external_body]
pub fn json_as_str<'a>(v: &'a serde_json::Value) -> (r: Option<&'a str>)
    ensures
        match spec_text(*v) {
            Some(t) => r matches Some(s) && s@ == t,
            None => r is None,
        },
{
    v.as_str()
}

/// Relies on serde_json::Value::as_array: the elements of a JSON list,
/// None for every other kind of value.
#[verifier::external_body]
pub fn json_as_array<'a>(v: &'a serde_json::Value) -> (r: Option<&'a Vec<serde_json::Value>>)
    ensures
        match spec_elements(*v) {
            Some(es) => r matches Some(a) && a@ == es,
            None => r is None,
        },
{
    v.as_array()
}

/// Relies on serde_json::Value::is_null.
#[verifier::external_body]
pub fn json_is_null(v: &serde_json::Value) -> (r: bool)
    ensures
        r == spec_null(*v),
{
    v.is_null()
}

/// Relies on serde_json::Value::as_number and Display for Number.  The
/// library holds no floating-point values, so a JSON number crosses the
/// boundary as its decimal text, which verified code parses itself.
#[verifier::external_body]
pub fn json_number_text(v: &serde_json::Value) -> (r: Option<String>)
    ensures
        match spec_number_text(*v) {
            Some(t) => r matches Some(s) && s@ == t,
            None => r is None,
        },
{
    v.as_number().map(|n| n.to_string())
}

/// Relies on serde_json::Map::new: the empty JSON object, on which every
/// member lookup misses.
#[verifier::external_body]
pub fn json_object_new() -> (r: serde_json::Value)
    ensures
        spec_is_obj(r),
        forall|k: Seq<char>| #[trigger] spec_member(r, k) is None,
{
    serde_json::Value::Object(serde_json::Map::new())
}

/// Relies on serde_json::Map::insert via Value::as_object_mut: sets a key of
/// an object, leaving every other member as it was; a non-object value is
/// left unchanged.
#[verifier::external_body]
pub fn json_object_insert(v: &mut serde_json::Value, key: &str, item: serde_json::Value)
    ensures
        spec_is_obj(*old(v)) ==> {
            &&& spec_is_obj(*final(v))
            &&& spec_member(*final(v), key@) == Some(item)
            &&& forall|k: Seq<char>|
                k != key@ ==> #[trigger] spec_member(*final(v), k) == spec_member(*old(v), k)
        },
        !spec_is_obj(*old(v)) ==> *final(v) == *old(v),
{
    if let Some(m) = v.as_object_mut() {
        m.insert(key.to_string(), item);
    }
}

/// Relies on serde_json::Value::String: a JSON string holding exactly the
/// given text.
#[verifier::external_body]
pub fn json_string(s: &str) -> (r: serde_json::Value)
    ensures
        spec_text(r) == Some(s@),
{
    serde_json::Value::String(s.to_string())
}

/// Relies on serde_json::Value::Null.
#[verifier::external_body]
pub fn json_null() -> (r: serde_json::Value)
    ensures
        spec_null(r),
{
    serde_json::Value::Null
}

/// Relies on serde_json::Value::clone: a clone is the same abstract value.
pub assume_specification[ <serde_json::Value as Clone>::clone ](v: &serde_json::Value) -> (r:
    serde_json::Value)
    ensures
        r == *v,
;

/// Relies on serde_json::Number's FromStr: reads a decimal number out of
/// text and carries it as a JSON number value; None when the text is not a
/// JSON number.
#[verifier::external_body]
pub fn json_number_from_str(s: &str) -> Option<serde_json::Value> {
    s.parse::<serde_json::Number>().ok().map(serde_json::Value::Number)
}

/// The text of a string member: the composition the record shapers read.
pub open spec fn spec_field_text(v: serde_json::Value, key: Seq<char>) -> Option<Seq<char>> {
    match spec_member(v, key) {
        Some(m) => spec_text(m),
        None => None,
    }
}

} // verus!
