//! JSON values that nodes and diagnostics carry through unchanged.

use vstd::prelude::*;

verus! {

/// `serde_json::Value`, carried as an opaque value.
#[verifier::external_type_specification]
#[verifier::external_body]
pub struct OpaqueJsonValue(serde_json::Value);

/// `Value::clone`, which `derive(Clone)` writes: a copy of the same value.
pub assume_specification[ <serde_json::Value as Clone>::clone ](v: &serde_json::Value) -> (r: serde_json::Value)
    ensures
        r == *v,
;

/// `Value == Value`, which `derive(PartialEq)` writes. Stated: a value is
/// equal to itself. Values that differ may still compare equal (the numbers
/// `0.0` and `-0.0`), so nothing is stated of two different values.
#[verifier::external_body]
pub(crate) fn json_eq(a: &serde_json::Value, b: &serde_json::Value) -> (r: bool)
    ensures
        *a == *b ==> r,
{
    a == b
}

/// What `Value::as_str` gives for a value: its text where the value is a
/// JSON string. A function of the value alone.
pub uninterp spec fn json_text(v: serde_json::Value) -> Option<Seq<char>>;

/// What `Value::as_bool` gives for a value: the boolean where the value is a
/// JSON boolean. A function of the value alone.
pub uninterp spec fn json_flag(v: serde_json::Value) -> Option<bool>;

/// `Value::as_str`, with the text copied out. Stated: the result is
/// `json_text` of the value.
#[verifier::external_body]
pub(crate) fn json_as_str(v: &serde_json::Value) -> (r: Option<String>)
    ensures
        match r {
            Some(s) => json_text(*v) == Some(s@),
            None => json_text(*v) is None,
        },
{
    v.as_str().map(|s| s.to_string())
}

/// `Value::as_bool`. Stated: the result is `json_flag` of the value.
#[verifier::external_body]
pub(crate) fn json_as_bool(v: &serde_json::Value) -> (r: Option<bool>)
    ensures
        r == json_flag(*v),
{
    v.as_bool()
}

/// What `Value::is_number` gives for a value: whether it is a JSON number.
/// A function of the value alone.
pub uninterp spec fn json_number(v: serde_json::Value) -> bool;

/// `Value::is_number`. Stated: the result is `json_number` of the value.
#[verifier::external_body]
pub(crate) fn json_is_number(v: &serde_json::Value) -> (r: bool)
    ensures
        r == json_number(*v),
{
    v.is_number()
}

} // verus!
