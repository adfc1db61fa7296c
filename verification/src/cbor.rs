//! Wire serialization of structured values: the compact self-describing
//! binary encoding both envelope directions travel in.
//!
//! The encoding itself is done by the `ciborium` crate; this module
//! holds the trusted boundary around it.  `cbor_of` names the bytes a
//! value encodes to and `cbor_parse` names the value a byte string
//! decodes to; both depend on their argument alone.

use vstd::prelude::*;

use ciborium::value::Integer;
use ciborium::value::Value;

use crate::value::RpcValue;
use crate::value::ValueModel;

verus! {

/// The binary encoding of a structured value.
pub uninterp spec fn cbor_of(v: ValueModel) -> Seq<u8>;

/// The structured value a byte string decodes to, or nothing when the
/// bytes are not one well-formed value of this crate's model or nest
/// deeper than the reader's recursion bound.
pub uninterp spec fn cbor_parse(bytes: Seq<u8>) -> Option<ValueModel>;

#[verifier::external_type_specification]
#[verifier::external_body]
pub struct ExCborValue(Value);

#[verifier::external_type_specification]
#[verifier::external_body]
pub struct ExCborInteger(Integer);

/// Relies on `ciborium::value::Value`: builds the value that mirrors an
/// `RpcValue`, variant by variant.  `Negative(n)` stands for `-1 - n`,
/// which always fits ciborium's integer range.
#[verifier::external_body]
fn to_cbor_value(v: &RpcValue) -> Value {
    match v {
        RpcValue::Null => Value::Null,
        RpcValue::Bool(b) => Value::Bool(*b),
        RpcValue::Unsigned(n) => Value::Integer((*n).into()),
        RpcValue::Negative(n) => Value::Integer(
            Integer::try_from(-1i128 - (*n as i128)).unwrap(),
        ),
        RpcValue::Bytes(b) => Value::Bytes(b.clone()),
        RpcValue::Text(s) => Value::Text(s.clone()),
        RpcValue::Array(items) => Value::Array(items.iter().map(to_cbor_value).collect()),
        RpcValue::Dict(p) => Value::Map(
            p.iter().map(|e| (to_cbor_value(&e.0), to_cbor_value(&e.1))).collect(),
        ),
    }
}

/// Relies on `ciborium::value::Integer`: reads it back as a magnitude,
/// `Unsigned(n)` for `n >= 0` and `Negative(m)` for `-1 - m`.
#[verifier::external_body]
fn from_cbor_integer(i: Integer) -> RpcValue {
    match i128::from(i) {
        n if n >= 0 => RpcValue::Unsigned(n as u64),
        n => RpcValue::Negative((-1 - n) as u64),
    }
}

/// Relies on `ciborium::value::Value`: reads an array's elements back
/// into the crate's model, rejecting the whole array when any element
/// is rejected.
#[verifier::external_body]
fn from_cbor_list(items: Vec<Value>) -> Option<RpcValue> {
    let mut out: Vec<RpcValue> = Vec::with_capacity(items.len());
    for item in items {
        out.push(from_cbor_value(item)?);
    }
    Some(RpcValue::Array(out))
}

/// Relies on `ciborium::value::Value`: reads a map's entries back into
/// the crate's model, in order, rejecting the whole map when any key or
/// value is rejected.
#[verifier::external_body]
fn from_cbor_map(pairs: Vec<(Value, Value)>) -> Option<RpcValue> {
    let mut out: Vec<(RpcValue, RpcValue)> = Vec::with_capacity(pairs.len());
    for (k, w) in pairs {
        out.push((from_cbor_value(k)?, from_cbor_value(w)?));
    }
    Some(RpcValue::Dict(out))
}

/// Relies on `ciborium::value::Value`: reads a decoded value back into
/// the crate's model, rejecting the variants the model does not carry
/// (floats and tags).
#[verifier::external_body]
fn from_cbor_value(v: Value) -> Option<RpcValue> {
    match v {
        Value::Null => Some(RpcValue::Null),
        Value::Bool(b) => Some(RpcValue::Bool(b)),
        Value::Integer(i) => Some(from_cbor_integer(i)),
        Value::Bytes(b) => Some(RpcValue::Bytes(b)),
        Value::Text(s) => Some(RpcValue::Text(s)),
        Value::Array(items) => from_cbor_list(items),
        Value::Map(pairs) => from_cbor_map(pairs),
        _ => None,
    }
}

/// Relies on `ciborium::ser::into_writer`: the encoding of a value is a
/// function of the value alone, and encoding into a byte vector cannot
/// fail — this crate's values never map to the tag variant, the one
/// variant whose serialization can be rejected.
#[verifier::external_body]
pub(crate) fn cbor_encode(v: &RpcValue) -> (r: Vec<u8>)
    ensures
        r@ == cbor_of(v@),
{
    let mut out: Vec<u8> = Vec::new();
    ciborium::ser::into_writer(&to_cbor_value(v), &mut out).unwrap();
    out
}

/// Relies on `ciborium::de::from_reader`: what a byte string decodes to
/// is a function of the bytes alone; malformed bytes, and values
/// outside this crate's model, are rejected.
#[verifier::external_body]
pub(crate) fn cbor_decode(bytes: &[u8]) -> (r: Option<RpcValue>)
    ensures
        r matches Some(v) ==> cbor_parse(bytes@) == Some(v@),
        r is None ==> cbor_parse(bytes@) is None,
{
    match ciborium::de::from_reader::<Value, _>(bytes) {
        Ok(value) => from_cbor_value(value),
        Err(_) => None,
    }
}

} // verus!
