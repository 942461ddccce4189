//! From attribute values to generic values.

use crate::attribute::{AttributeValue, FieldMap, SpecAttribute};
use crate::encoding::empty_sentinel;
use crate::error::CodecError;
use crate::number::{number_text, Number};
use crate::text_map::{
    entries_map, keys_distinct, lemma_entries_map_index, position_of, TextMap,
};
use crate::utf8::string_from_utf8;
use crate::value::{SpecValue, Value};
use vstd::prelude::*;
use vstd::utf8::{decode_utf8, valid_utf8};

verus! {

/// The strings that the members of a set spell, in their order.
pub open spec fn strings_spec(members: Seq<Seq<char>>) -> Seq<SpecValue> {
    Seq::new(members.len(), |i: int| SpecValue::String(members[i]))
}

/// The strings that the members of a binary set spell in UTF-8.
pub open spec fn binary_strings_spec(members: Seq<Seq<u8>>) -> Seq<SpecValue> {
    Seq::new(members.len(), |i: int| SpecValue::String(decode_utf8(members[i])))
}

/// The numbers that the members of a number set spell.
pub open spec fn numbers_spec(members: Seq<Seq<char>>) -> Seq<SpecValue> {
    Seq::new(members.len(), |i: int| SpecValue::Number(number_text(members[i]).unwrap()))
}

/// The generic value that `attribute` decodes to, or `None` where it has
/// none.
///
/// The slots are looked at in a fixed order, and the first populated one
/// decides: binary, boolean, binary set, list, map, number, number set, null
/// marker, string, string set. A null marker stands for null whatever it
/// holds. A map is one of finitely many entries.
pub open spec fn decode_spec(attribute: SpecAttribute) -> Option<SpecValue>
    decreases attribute,
{
    if let Some(bytes) = attribute.b {
        if valid_utf8(bytes) {
            Some(SpecValue::String(decode_utf8(bytes)))
        } else {
            None
        }
    } else if let Some(b) = attribute.bool {
        Some(SpecValue::Bool(b))
    } else if let Some(members) = attribute.bs {
        if forall|i: int| 0 <= i < members.len() ==> valid_utf8(#[trigger] members[i]) {
            Some(SpecValue::Array(binary_strings_spec(members)))
        } else {
            None
        }
    } else if let Some(items) = attribute.l {
        if forall|i: int| 0 <= i < items.len() ==> decode_spec(#[trigger] items[i]) is Some {
            Some(
                SpecValue::Array(
                    Seq::new(
                        items.len(),
                        |i: int|
                            if 0 <= i < items.len() {
                                decode_spec(items[i]).unwrap()
                            } else {
                                SpecValue::Null
                            },
                    ),
                ),
            )
        } else {
            None
        }
    } else if let Some(fields) = attribute.m {
        if fields.dom().finite() && forall|key: Seq<char>|
            fields.contains_key(key) ==> decode_spec(#[trigger] fields[key]) is Some {
            Some(
                SpecValue::Object(
                    Map::new(
                        |key: Seq<char>| fields.contains_key(key),
                        |key: Seq<char>|
                            if fields.contains_key(key) {
                                decode_spec(fields[key]).unwrap()
                            } else {
                                SpecValue::Null
                            },
                    ),
                ),
            )
        } else {
            None
        }
    } else if let Some(text) = attribute.n {
        match number_text(text) {
            Some(canonical) => Some(SpecValue::Number(canonical)),
            None => None,
        }
    } else if let Some(members) = attribute.ns {
        if forall|i: int| 0 <= i < members.len() ==> number_text(#[trigger] members[i]) is Some {
            Some(SpecValue::Array(numbers_spec(members)))
        } else {
            None
        }
    } else if attribute.null is Some {
        Some(SpecValue::Null)
    } else if let Some(text) = attribute.s {
        if text == empty_sentinel() {
            Some(SpecValue::String(Seq::empty()))
        } else {
            Some(SpecValue::String(text))
        }
    } else if let Some(members) = attribute.ss {
        Some(SpecValue::Array(strings_spec(members)))
    } else {
        None
    }
}

/// Whether decoding `attribute` may fail with `error`.
///
/// A list fails with what its first undecodable item fails with. The entries
/// of a map have no order: a map fails with what any of its undecodable
/// entries fails with.
pub open spec fn decode_error(attribute: SpecAttribute, error: CodecError) -> bool
    decreases attribute,
{
    if let Some(bytes) = attribute.b {
        !valid_utf8(bytes) && error == CodecError::InvalidUtf8
    } else if attribute.bool is Some {
        false
    } else if let Some(members) = attribute.bs {
        error == CodecError::InvalidUtf8 && exists|i: int|
            0 <= i < members.len() && !valid_utf8(#[trigger] members[i])
    } else if let Some(items) = attribute.l {
        exists|i: int|
            0 <= i < items.len() && decode_error(#[trigger] items[i], error) && forall|j: int|
                0 <= j < i ==> decode_spec(#[trigger] items[j]) is Some
    } else if let Some(fields) = attribute.m {
        fields.dom().finite() && exists|key: Seq<char>|
            fields.contains_key(key) && decode_error(#[trigger] fields[key], error)
    } else if let Some(text) = attribute.n {
        number_text(text) is None && error == CodecError::InvalidNumber
    } else if let Some(members) = attribute.ns {
        error == CodecError::InvalidNumber && exists|i: int|
            0 <= i < members.len() && number_text(#[trigger] members[i]) is None
    } else if attribute.null is Some {
        false
    } else if attribute.s is Some {
        false
    } else if attribute.ss is Some {
        false
    } else {
        error == CodecError::EmptyAttribute
    }
}

/// Decodes an attribute value to a generic value.
///
/// The first populated slot decides, in the order of `decode_spec`. Binary
/// payloads are read as UTF-8 text, numbers are parsed, the sentinel
/// becomes the empty string, and sets become arrays.
pub fn attribute_value_to_json(attribute: &AttributeValue) -> (value: Result<Value, CodecError>)
    ensures
        match value {
            Ok(v) => decode_spec(attribute@) == Some(v@),
            Err(error) => decode_spec(attribute@) is None && decode_error(attribute@, error),
        },
    decreases attribute,
{
    if let Some(bytes) = &attribute.b {
        let owned = bytes.clone();
        match string_from_utf8(owned) {
            Some(text) => Ok(Value::String(text)),
            None => Err(CodecError::InvalidUtf8),
        }
    } else if let Some(b) = &attribute.bool {
        Ok(Value::Bool(*b))
    } else if let Some(members) = &attribute.bs {
        let decoded = decode_binary_set(members);
        let ghost models = attribute@.bs->0;
        match decoded {
            Ok(values) => {
                let value = Value::Array(values);
                assert(forall|i: int| 0 <= i < models.len() ==> valid_utf8(#[trigger] models[i]));
                assert(value@->Array_0 =~= binary_strings_spec(models));
                Ok(value)
            },
            Err(error) => {
                proof {
                    let i = choose|i: int| 0 <= i < members@.len() && !valid_utf8(members@[i]@);
                    assert(!valid_utf8(models[i]));
                }
                Err(error)
            },
        }
    } else if let Some(items) = &attribute.l {
        let decoded = decode_list(items);
        let ghost models = attribute@.l->0;
        match decoded {
            Ok(values) => {
                let value = Value::Array(values);
                assert(value@->Array_0 =~= decode_spec(attribute@)->0->Array_0);
                Ok(value)
            },
            Err(error) => {
                proof {
                    let i = choose|i: int|
                        {
                            &&& 0 <= i < items@.len()
                            &&& decode_spec(items@[i]@) is None
                            &&& decode_error(items@[i]@, error)
                            &&& forall|j: int| 0 <= j < i ==> decode_spec(items@[j]@) is Some
                        };
                    assert(decode_spec(models[i]) is None);
                }
                Err(error)
            },
        }
    } else if let Some(fields) = &attribute.m {
        let decoded = attribute_value_hashmap_to_json_map(fields);
        let ghost models = attribute@.m->0;
        assert(models.dom() =~= fields@.dom());
        match decoded {
            Ok(values) => {
                let value = Value::Object(values);
                assert(value@->Object_0 =~= decode_spec(attribute@)->0->Object_0);
                Ok(value)
            },
            Err(error) => {
                proof {
                    let key = choose|key: Seq<char>|
                        {
                            &&& fields@.contains_key(key)
                            &&& decode_spec(fields@[key]@) is None
                            &&& decode_error(fields@[key]@, error)
                        };
                    assert(decode_spec(models[key]) is None);
                }
                Err(error)
            },
        }
    } else if let Some(text) = &attribute.n {
        match Number::parse(text.as_str()) {
            Some(number) => Ok(Value::Number(number)),
            None => Err(CodecError::InvalidNumber),
        }
    } else if let Some(members) = &attribute.ns {
        let decoded = decode_number_set(members);
        let ghost models = attribute@.ns->0;
        match decoded {
            Ok(values) => {
                let value = Value::Array(values);
                assert(forall|i: int|
                    0 <= i < models.len() ==> number_text(#[trigger] models[i]) is Some);
                assert(value@->Array_0 =~= numbers_spec(models));
                Ok(value)
            },
            Err(error) => {
                proof {
                    let i = choose|i: int|
                        0 <= i < members@.len() && number_text(members@[i]@) is None;
                    assert(number_text(models[i]) is None);
                }
                Err(error)
            },
        }
    } else if attribute.null.is_some() {
        Ok(Value::Null)
    } else if let Some(text) = &attribute.s {
        proof {
            reveal_strlit("\0");
        }
        let sentinel = "\0".to_owned();
        assert(sentinel@ =~= empty_sentinel());
        if *text == sentinel {
            Ok(Value::String(String::new()))
        } else {
            Ok(Value::String(text.clone()))
        }
    } else if let Some(members) = &attribute.ss {
        let values = decode_string_set(members);
        let value = Value::Array(values);
        assert(value@->Array_0 =~= strings_spec(attribute@.ss->0));
        Ok(value)
    } else {
        Err(CodecError::EmptyAttribute)
    }
}

/// Reads each member of a binary set as UTF-8 text.
fn decode_binary_set(members: &Vec<Vec<u8>>) -> (values: Result<Vec<Value>, CodecError>)
    ensures
        match values {
            Ok(strings) => {
                &&& strings@.len() == members@.len()
                &&& forall|i: int|
                    0 <= i < members@.len() ==> valid_utf8((#[trigger] members@[i])@)
                        && strings@[i]@ == SpecValue::String(decode_utf8(members@[i]@))
            },
            Err(error) => error == CodecError::InvalidUtf8 && exists|i: int|
                0 <= i < members@.len() && !valid_utf8(members@[i]@),
        },
{
    let mut strings: Vec<Value> = Vec::new();
    let mut i: usize = 0;
    while i < members.len()
        invariant
            i <= members@.len(),
            strings@.len() == i,
            forall|j: int|
                0 <= j < i ==> valid_utf8(members@[j]@) && strings@[j]@ == SpecValue::String(
                    decode_utf8(members@[j]@),
                ),
        decreases members@.len() - i,
    {
        let owned = members[i].clone();
        match string_from_utf8(owned) {
            Some(text) => strings.push(Value::String(text)),
            None => {
                return Err(CodecError::InvalidUtf8);
            },
        }
        i += 1;
    }
    Ok(strings)
}

/// Parses each member of a number set.
fn decode_number_set(members: &Vec<String>) -> (values: Result<Vec<Value>, CodecError>)
    ensures
        match values {
            Ok(numbers) => {
                &&& numbers@.len() == members@.len()
                &&& forall|i: int|
                    0 <= i < members@.len() ==> number_text((#[trigger] members@[i])@) is Some
                        && numbers@[i]@ == SpecValue::Number(
                        number_text(members@[i]@).unwrap(),
                    )
            },
            Err(error) => error == CodecError::InvalidNumber && exists|i: int|
                0 <= i < members@.len() && number_text(members@[i]@) is None,
        },
{
    let mut numbers: Vec<Value> = Vec::new();
    let mut i: usize = 0;
    while i < members.len()
        invariant
            i <= members@.len(),
            numbers@.len() == i,
            forall|j: int|
                0 <= j < i ==> number_text(members@[j]@) is Some && numbers@[j]@
                    == SpecValue::Number(number_text(members@[j]@).unwrap()),
        decreases members@.len() - i,
    {
        match Number::parse(members[i].as_str()) {
            Some(number) => numbers.push(Value::Number(number)),
            None => {
                return Err(CodecError::InvalidNumber);
            },
        }
        i += 1;
    }
    Ok(numbers)
}

/// Turns each member of a string set into a string.
fn decode_string_set(members: &Vec<String>) -> (strings: Vec<Value>)
    ensures
        strings@.len() == members@.len(),
        forall|i: int| 0 <= i < members@.len() ==> strings@[i]@ == SpecValue::String(members@[i]@),
{
    let mut strings: Vec<Value> = Vec::new();
    let mut i: usize = 0;
    while i < members.len()
        invariant
            i <= members@.len(),
            strings@.len() == i,
            forall|j: int| 0 <= j < i ==> strings@[j]@ == SpecValue::String(members@[j]@),
        decreases members@.len() - i,
    {
        strings.push(Value::String(members[i].clone()));
        i += 1;
    }
    strings
}

/// Decodes the items of a list, in their order, up to the first that has
/// no value.
fn decode_list(items: &Vec<AttributeValue>) -> (values: Result<Vec<Value>, CodecError>)
    ensures
        match values {
            Ok(decoded) => {
                &&& decoded@.len() == items@.len()
                &&& forall|i: int|
                    0 <= i < items@.len() ==> decode_spec(items@[i]@) == Some(decoded@[i]@)
            },
            Err(error) => exists|i: int|
                {
                    &&& 0 <= i < items@.len()
                    &&& decode_spec(items@[i]@) is None
                    &&& decode_error(items@[i]@, error)
                    &&& forall|j: int| 0 <= j < i ==> decode_spec(items@[j]@) is Some
                },
        },
    decreases items,
{
    let mut decoded: Vec<Value> = Vec::new();
    let mut i: usize = 0;
    while i < items.len()
        invariant
            i <= items@.len(),
            decoded@.len() == i,
            forall|j: int| 0 <= j < i ==> decode_spec(items@[j]@) == Some(decoded@[j]@),
        decreases items@.len() - i,
    {
        match attribute_value_to_json(&items[i]) {
            Ok(value) => decoded.push(value),
            Err(error) => {
                return Err(error);
            },
        }
        i += 1;
    }
    Ok(decoded)
}

/// Decodes a field map to an object: each attribute value under its name.
/// Fails where an attribute value has no value.
pub fn attribute_value_hashmap_to_json_map(fields: &FieldMap) -> (object: Result<
    TextMap<Value>,
    CodecError,
>)
    ensures
        fields@.dom().finite(),
        match object {
            Ok(values) => {
                &&& forall|key: Seq<char>| values@.contains_key(key) <==> fields@.contains_key(key)
                &&& forall|key: Seq<char>|
                    fields@.contains_key(key) ==> decode_spec(fields@[key]@) == Some(
                        values@[key]@,
                    )
            },
            Err(error) => exists|key: Seq<char>|
                {
                    &&& fields@.contains_key(key)
                    &&& decode_spec(fields@[key]@) is None
                    &&& decode_error(fields@[key]@, error)
                },
        },
    decreases fields,
{
    let entries = fields.entries();
    let mut values: TextMap<Value> = TextMap::new();
    let mut i: usize = 0;
    while i < entries.len()
        invariant
            i <= entries@.len(),
            entries@ == fields.spec_entries(),
            keys_distinct(entries@),
            fields@ == entries_map(entries@),
            fields@.dom().finite(),
            forall|key: Seq<char>|
                values@.contains_key(key) <==> exists|j: int|
                    0 <= j < i && entries@[j].0@ == key,
            forall|j: int|
                0 <= j < i ==> decode_spec(entries@[j].1@) == Some(
                    (#[trigger] values@[entries@[j].0@])@,
                ),
        decreases entries@.len() - i,
    {
        proof {
            fields.lemma_entry_decreases(i as int);
        }
        match attribute_value_to_json(&entries[i].1) {
            Ok(value) => {
                values.insert(entries[i].0.clone(), value);
            },
            Err(error) => {
                proof {
                    lemma_entries_map_index(entries@, i as int);
                }
                return Err(error);
            },
        }
        i += 1;
    }
    proof {
        assert forall|key: Seq<char>| fields@.contains_key(key) implies values@.contains_key(key)
            && decode_spec(fields@[key]@) == Some(values@[key]@) by {
            let j = position_of(entries@, key);
            lemma_entries_map_index(entries@, j);
        }
    }
    Ok(values)
}

} // verus!
