//! From generic values to attribute values.

use crate::attribute::{field_map_view, AttributeValue, FieldMap, SpecAttribute};
use crate::error::CodecError;
use crate::laws::lemma_encode_single_slot;
use crate::text_map::{keys_distinct, lemma_entries_map_index, position_of, TextMap};
use crate::value::{SpecValue, Value};
use vstd::prelude::*;

verus! {

/// The text that stands for the empty string in a string attribute: a single
/// NUL character. The database does not store empty strings.
pub open spec fn empty_sentinel() -> Seq<char> {
    seq!['\0']
}

/// The attribute value that encodes `value`.
pub open spec fn encode_spec(value: SpecValue) -> SpecAttribute
    decreases value,
{
    match value {
        SpecValue::Null => SpecAttribute { null: Some(true), ..SpecAttribute::empty() },
        SpecValue::Bool(b) => SpecAttribute { bool: Some(b), ..SpecAttribute::empty() },
        SpecValue::Number(text) => SpecAttribute { n: Some(text), ..SpecAttribute::empty() },
        SpecValue::String(text) => SpecAttribute {
            s: Some(
                if text.len() == 0 {
                    empty_sentinel()
                } else {
                    text
                },
            ),
            ..SpecAttribute::empty()
        },
        SpecValue::Array(items) => SpecAttribute {
            l: Some(
                Seq::new(
                    items.len(),
                    |i: int|
                        if 0 <= i < items.len() {
                            encode_spec(items[i])
                        } else {
                            SpecAttribute::empty()
                        },
                ),
            ),
            ..SpecAttribute::empty()
        },
        SpecValue::Object(fields) => SpecAttribute {
            m: Some(
                Map::new(
                    |key: Seq<char>| fields.contains_key(key),
                    |key: Seq<char>|
                        if fields.contains_key(key) {
                            encode_spec(fields[key])
                        } else {
                            SpecAttribute::empty()
                        },
                ),
            ),
            ..SpecAttribute::empty()
        },
    }
}

/// Encodes a generic value as an attribute value.
///
/// Null becomes the null marker, a boolean a boolean, a number its text, an
/// array a list and an object a map, item by item. A string stays a string,
/// but for the empty one, which becomes the sentinel.
pub fn json_to_attribute_value(value: &Value) -> (attribute: AttributeValue)
    ensures
        attribute@ == encode_spec(value@),
        attribute@.single_slot(),
        value@.well_formed(),
    decreases value,
{
    let mut attribute = AttributeValue::default();
    match value {
        Value::Null => {
            attribute.null = Some(true);
        },
        Value::Bool(b) => {
            attribute.bool = Some(*b);
        },
        Value::Number(number) => {
            attribute.n = Some(number.as_str().to_owned());
        },
        Value::String(text) => {
            if text.as_str().is_empty() {
                proof {
                    reveal_strlit("\0");
                }
                attribute.s = Some("\0".to_owned());
                assert(attribute.s->0@ =~= empty_sentinel());
            } else {
                attribute.s = Some(text.clone());
            }
        },
        Value::Array(items) => {
            let encoded = encode_items(items);
            attribute.l = Some(encoded);
            assert(attribute@.l->0 =~= encode_spec(value@).l->0);
            assert forall|i: int| 0 <= i < items@.len() implies (
            #[trigger] value@->Array_0[i]).well_formed() by {
                assert(encoded@[i]@ == encode_spec(items@[i]@));
            }
        },
        Value::Object(fields) => {
            let encoded = encode_fields(fields);
            attribute.m = Some(encoded);
            assert(value@->Object_0.dom() =~= fields@.dom());
            assert(attribute@.m->0 =~= encode_spec(value@).m->0);
            assert forall|key: Seq<char>| fields@.contains_key(key) implies (
            #[trigger] value@->Object_0[key]).well_formed() by {
                assert(encoded@[key]@ == encode_spec(fields@[key]@));
            }
        },
    }
    proof {
        lemma_encode_single_slot(value@);
    }
    attribute
}

/// Encodes the items of an array, in their order.
fn encode_items(items: &Vec<Value>) -> (encoded: Vec<AttributeValue>)
    ensures
        encoded@.len() == items@.len(),
        forall|i: int|
            0 <= i < items@.len() ==> (#[trigger] encoded@[i])@ == encode_spec(items@[i]@)
                && items@[i]@.well_formed(),
    decreases items,
{
    let mut encoded: Vec<AttributeValue> = Vec::new();
    let mut i: usize = 0;
    while i < items.len()
        invariant
            i <= items@.len(),
            encoded@.len() == i,
            forall|j: int|
                0 <= j < i ==> (#[trigger] encoded@[j])@ == encode_spec(items@[j]@)
                    && items@[j]@.well_formed(),
        decreases items@.len() - i,
    {
        let attribute = json_to_attribute_value(&items[i]);
        encoded.push(attribute);
        i += 1;
    }
    encoded
}

/// Encodes the values of an object, each under its key.
fn encode_fields(fields: &TextMap<Value>) -> (encoded: FieldMap)
    ensures
        fields@.dom().finite(),
        forall|key: Seq<char>| encoded@.contains_key(key) <==> fields@.contains_key(key),
        forall|key: Seq<char>|
            fields@.contains_key(key) ==> (#[trigger] encoded@[key])@ == encode_spec(
                fields@[key]@,
            ) && fields@[key]@.well_formed(),
    decreases fields,
{
    let entries = fields.entries();
    let mut encoded: FieldMap = TextMap::new();
    let mut i: usize = 0;
    while i < entries.len()
        invariant
            i <= entries@.len(),
            entries@ == fields.spec_entries(),
            keys_distinct(entries@),
            forall|key: Seq<char>|
                encoded@.contains_key(key) <==> exists|j: int|
                    0 <= j < i && entries@[j].0@ == key,
            forall|j: int|
                0 <= j < i ==> (#[trigger] encoded@[entries@[j].0@])@ == encode_spec(
                    entries@[j].1@,
                ) && entries@[j].1@.well_formed(),
        decreases entries@.len() - i,
    {
        proof {
            fields.lemma_entry_decreases(i as int);
        }
        let key = entries[i].0.clone();
        let attribute = json_to_attribute_value(&entries[i].1);
        encoded.insert(key, attribute);
        i += 1;
    }
    proof {
        assert forall|key: Seq<char>| fields@.contains_key(key) implies encoded@.contains_key(key)
            && encoded@[key]@ == encode_spec(fields@[key]@) && fields@[key]@.well_formed() by {
            let j = position_of(entries@, key);
            lemma_entries_map_index(entries@, j);
        }
    }
    encoded
}

/// Encodes an object as a field map: the map that `json_to_attribute_value`
/// puts into the map slot. A value that is no object has no field map.
pub fn json_to_attribute_value_hashmap(value: &Value) -> (fields: Result<FieldMap, CodecError>)
    ensures
        match fields {
            Ok(map) => value@ is Object && encode_spec(value@) == SpecAttribute::of_map(
                field_map_view(map),
            ),
            Err(error) => !(value@ is Object) && error == CodecError::NotAnObject,
        },
{
    match value {
        Value::Object(object) => {
            let encoded = encode_fields(object);
            assert(field_map_view(encoded) =~= encode_spec(value@).m->0);
            Ok(encoded)
        },
        _ => Err(CodecError::NotAnObject),
    }
}

} // verus!
