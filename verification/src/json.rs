//! Trusted boundary to `serde_json`, the message codec's JSON primitives.
//! JSON values are opaque here; what each primitive yields is a
//! deterministic function of its arguments alone, so each result carries a
//! name, and the verified layers above speak of the names: what the parser
//! yields on given bytes, what each accessor reads off a value, which value
//! each constructor builds, and which bytes a value serializes to.
use vstd::prelude::*;

verus! {

#[verifier::external_type_specification]
#[verifier::external_body]
pub struct ExValue(serde_json::Value);

/// Whether a byte sequence is one JSON document `serde_json::from_slice`
/// accepts; a function of the bytes alone. (Its companion `parsed_json`
/// names the value that the same parse yields.)
pub uninterp spec fn json_syntax_ok(b: Seq<u8>) -> bool;

/// The value `serde_json::from_slice::<Value>` yields on bytes it accepts.
pub uninterp spec fn parsed_json(b: Seq<u8>) -> serde_json::Value;

/// What `serde_json::Value::get` yields for a string key: the member of
/// that name when the value is an object holding one, nothing otherwise.
pub uninterp spec fn json_get(v: serde_json::Value, key: Seq<char>) -> Option<serde_json::Value>;

/// What `serde_json::Value::as_str` yields: the characters when the value
/// is a JSON string.
pub uninterp spec fn json_str(v: serde_json::Value) -> Option<Seq<char>>;

/// What `serde_json::Value::as_u64` yields: the number when the value is a
/// JSON integer representable as `u64`.
pub uninterp spec fn json_u64(v: serde_json::Value) -> Option<u64>;

/// What `serde_json::Value::as_bool` yields: the boolean when the value is
/// a JSON boolean.
pub uninterp spec fn json_bool(v: serde_json::Value) -> Option<bool>;

/// The JSON string value holding the given characters.
pub uninterp spec fn json_string_value(s: Seq<char>) -> serde_json::Value;

/// The JSON number value holding the given integer.
pub uninterp spec fn json_u64_value(n: u64) -> serde_json::Value;

/// The JSON boolean value.
pub uninterp spec fn json_bool_value(b: bool) -> serde_json::Value;

/// The JSON object value built from the given members, in order (a later
/// member wins a repeated key).
pub uninterp spec fn json_object_value(entries: Seq<(Seq<char>, serde_json::Value)>) -> serde_json::Value;

/// The UTF-8 bytes `serde_json::to_vec` writes for a value.
pub uninterp spec fn json_bytes(v: serde_json::Value) -> Seq<u8>;

/// Relies on `serde_json::from_slice::<Value>`: parses the bytes as a
/// generic JSON value, succeeding exactly on syntactically valid JSON and
/// yielding the value the bytes denote.
#[verifier::external_body]
pub(crate) fn parse_json(bytes: &[u8]) -> (r: Option<serde_json::Value>)
    ensures
        r is Some <==> json_syntax_ok(bytes@),
        r matches Some(v) ==> v == parsed_json(bytes@),
{
    serde_json::from_slice::<serde_json::Value>(bytes).ok()
}

/// Relies on `serde_json::Value::get` with a string key.
#[verifier::external_body]
pub(crate) fn value_get<'a>(v: &'a serde_json::Value, key: &str) -> (r: Option<
    &'a serde_json::Value,
>)
    ensures
        r is Some <==> json_get(*v, key@) is Some,
        r matches Some(x) ==> json_get(*v, key@) == Some(*x),
{
    v.get(key)
}

/// Relies on `serde_json::Value::as_str`.
#[verifier::external_body]
pub(crate) fn value_as_str(v: &serde_json::Value) -> (r: Option<String>)
    ensures
        r is Some <==> json_str(*v) is Some,
        r matches Some(s) ==> json_str(*v) == Some(s@),
{
    v.as_str().map(|s| s.to_string())
}

/// Relies on `serde_json::Value::as_u64`.
#[verifier::external_body]
pub(crate) fn value_as_u64(v: &serde_json::Value) -> (r: Option<u64>)
    ensures
        r == json_u64(*v),
{
    v.as_u64()
}

/// Relies on `serde_json::Value::as_bool`.
#[verifier::external_body]
pub(crate) fn value_as_bool(v: &serde_json::Value) -> (r: Option<bool>)
    ensures
        r == json_bool(*v),
{
    v.as_bool()
}

/// Relies on `Clone` for `serde_json::Value`: the clone is the same value.
#[verifier::external_body]
pub(crate) fn value_clone(v: &serde_json::Value) -> (r: serde_json::Value)
    ensures
        r == *v,
{
    v.clone()
}

/// Relies on the `serde_json::Value::String` constructor.
#[verifier::external_body]
pub(crate) fn value_string(s: &str) -> (r: serde_json::Value)
    ensures
        r == json_string_value(s@),
{
    serde_json::Value::String(s.to_string())
}

/// Relies on `serde_json::Number::from` for `u64` and the
/// `serde_json::Value::Number` constructor.
#[verifier::external_body]
pub(crate) fn value_u64(n: u64) -> (r: serde_json::Value)
    ensures
        r == json_u64_value(n),
{
    serde_json::Value::Number(serde_json::Number::from(n))
}

/// Relies on the `serde_json::Value::Bool` constructor.
#[verifier::external_body]
pub(crate) fn value_bool(b: bool) -> (r: serde_json::Value)
    ensures
        r == json_bool_value(b),
{
    serde_json::Value::Bool(b)
}

/// Relies on `serde_json::Map`'s `FromIterator` and the
/// `serde_json::Value::Object` constructor: the object with the given
/// members.
#[verifier::external_body]
pub(crate) fn value_object(entries: Vec<(String, serde_json::Value)>) -> (r: serde_json::Value)
    ensures
        r == json_object_value(
            entries@.map_values(|p: (String, serde_json::Value)| (p.0@, p.1)),
        ),
{
    serde_json::Value::Object(entries.into_iter().collect())
}

/// Relies on `serde_json::to_vec`: the UTF-8 serialization of a JSON value.
/// Serializing a `Value` has no failure path (keys are strings, numbers are
/// finite by construction, and writing into a `Vec` cannot fail), so the
/// bytes are always yielded.
#[verifier::external_body]
pub(crate) fn value_to_bytes(v: &serde_json::Value) -> (r: Vec<u8>)
    ensures
        r@ == json_bytes(*v),
{
    serde_json::to_vec(v).unwrap()
}

} // verus!
