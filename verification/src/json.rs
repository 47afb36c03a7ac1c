//! The JSON boundary: interaction inputs, contract states and cache entries
//! are JSON values.  The engine carries them opaquely and trusts serde_json
//! for parsing and encoding, which are pure functions of their argument.

use vstd::prelude::*;

verus! {

/// serde_json's JSON value, carried through the engine opaquely.
#[verifier::external_type_specification]
#[verifier::external_body]
pub struct ExValue(serde_json::Value);

/// The JSON value a byte string parses to, if it is well-formed JSON;
/// parsing depends on the bytes alone.
pub uninterp spec fn json_parse_bytes(b: Seq<u8>) -> Option<serde_json::Value>;

/// The JSON encoding of a value, when serialization succeeds; the encoding
/// depends on the value alone.
pub uninterp spec fn json_encode(v: serde_json::Value) -> Option<Seq<u8>>;

/// Relies on serde_json::from_slice: parsing is deterministic in the bytes.
#[verifier::external_body]
pub(crate) fn parse_json_bytes(b: &[u8]) -> (r: Option<serde_json::Value>)
    ensures
        r == json_parse_bytes(b@),
{
    serde_json::from_slice(b).ok()
}

/// Relies on serde_json::to_vec: the encoding depends on the value alone.
/// The bytes it produces need not parse back — serde_json enforces a
/// nesting limit when parsing but none when serializing, so a deep enough
/// value encodes to bytes its own parser rejects — but when they do parse,
/// they give back the same value.
#[verifier::external_body]
pub(crate) fn value_to_bytes(v: &serde_json::Value) -> (r: Option<Vec<u8>>)
    ensures
        r is Some <==> json_encode(*v) is Some,
        r matches Some(bytes) ==> bytes@ == json_encode(*v)->0,
        r matches Some(bytes) ==> (json_parse_bytes(bytes@) is Some ==> json_parse_bytes(bytes@)
            == Some(*v)),
{
    serde_json::to_vec(v).ok()
}

/// The JSON object `{"input": input, "caller": caller}` — what the engine
/// hands the VM for one interaction; a function of its two fields.
pub uninterp spec fn call_input_of(input: serde_json::Value, caller: Seq<char>) -> serde_json::Value;

/// Relies on serde_json's value construction: builds the two-field call
/// object from the decoded input and the caller address, nothing else.
#[verifier::external_body]
pub(crate) fn make_call_input(input: &serde_json::Value, caller: &str) -> (r: serde_json::Value)
    ensures
        r == call_input_of(*input, caller@),
{
    let mut fields = serde_json::Map::new();
    fields.insert(String::from("input"), input.clone());
    fields.insert(String::from("caller"), serde_json::Value::String(caller.to_string()));
    serde_json::Value::Object(fields)
}

/// Relies on serde_json::Value::clone: a clone equals the original value.
#[verifier::external_body]
pub(crate) fn clone_value(v: &serde_json::Value) -> (r: serde_json::Value)
    ensures
        r == *v,
{
    v.clone()
}

} // verus!
