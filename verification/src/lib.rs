//! Conversion between generic structured values and the typed attribute
//! values of a key-value database.
//!
//! A generic value is null, a boolean, a number, a string, an array or an
//! object. An attribute value has one slot per type of the database's
//! encoding. `to_attribute_value` and `from_attribute_value` convert single
//! values, `to_fields` and `from_fields` the attributes of a whole record.

pub mod attribute;
pub mod builder;
pub mod decoding;
pub mod encoding;
pub mod error;
pub mod laws;
pub mod number;
pub mod text_map;
mod utf8;
pub mod value;

use crate::attribute::{field_map_view, AttributeValue, FieldMap, SpecAttribute};
use crate::decoding::{attribute_value_to_json, decode_error, decode_spec};
use crate::encoding::{encode_spec, json_to_attribute_value, json_to_attribute_value_hashmap};
use crate::error::CodecError;
use crate::value::Value;
use vstd::prelude::*;

verus! {

/// Encodes a generic value as an attribute value. Every value has an
/// encoding, with exactly one slot populated.
pub fn to_attribute_value(value: Value) -> (attribute: AttributeValue)
    ensures
        attribute@ == encode_spec(value@),
        attribute@.single_slot(),
        value@.well_formed(),
{
    json_to_attribute_value(&value)
}

/// Decodes an attribute value to a generic value. Fails where the first
/// populated slot holds bytes that are not UTF-8 or text that is no number,
/// in itself or in a list or a map, and where no slot is populated.
pub fn from_attribute_value(value: AttributeValue) -> (decoded: Result<Value, CodecError>)
    ensures
        match decoded {
            Ok(v) => decode_spec(value@) == Some(v@),
            Err(error) => decode_spec(value@) is None && decode_error(value@, error),
        },
{
    attribute_value_to_json(&value)
}

/// Encodes an object as the field map of a record: each of its values
/// encoded under its key. Fails with `NotAnObject` on any other value.
pub fn to_fields(value: Value) -> (fields: Result<FieldMap, CodecError>)
    ensures
        match fields {
            Ok(map) => value@ is Object && SpecAttribute::of_map(field_map_view(map)) == encode_spec(
                value@,
            ),
            Err(error) => !(value@ is Object) && error == CodecError::NotAnObject,
        },
{
    json_to_attribute_value_hashmap(&value)
}

/// Decodes the field map of a record to an object: the map is decoded as
/// an attribute value that holds it in its map slot.
pub fn from_fields(value: FieldMap) -> (decoded: Result<Value, CodecError>)
    ensures
        match decoded {
            Ok(v) => v@ is Object && decode_spec(SpecAttribute::of_map(field_map_view(value))) == Some(
                v@,
            ),
            Err(error) => decode_spec(SpecAttribute::of_map(field_map_view(value))) is None
                && decode_error(SpecAttribute::of_map(field_map_view(value)), error),
        },
{
    let ghost fields = field_map_view(value);
    let mut attribute = AttributeValue::default();
    attribute.m = Some(value);
    assert(attribute@.m->0 =~= fields);
    attribute_value_to_json(&attribute)
}

} // verus!
