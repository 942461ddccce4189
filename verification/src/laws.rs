//! What holds of encoding and decoding together.

use crate::attribute::SpecAttribute;
use crate::builder::fields_spec;
use crate::decoding::{decode_error, decode_spec};
use crate::encoding::{empty_sentinel, encode_spec};
use crate::error::CodecError;
use crate::number::number_text;
use crate::value::SpecValue;
use vstd::prelude::*;
use vstd::utf8::valid_utf8;

verus! {

/// Whether some string in `value` is the sentinel, a single NUL character.
/// Keys of objects do not count.
pub open spec fn holds_sentinel(value: SpecValue) -> bool
    decreases value,
{
    match value {
        SpecValue::String(text) => text == empty_sentinel(),
        SpecValue::Array(items) => exists|i: int|
            0 <= i < items.len() && holds_sentinel(#[trigger] items[i]),
        SpecValue::Object(fields) => exists|key: Seq<char>|
            fields.contains_key(key) && holds_sentinel(#[trigger] fields[key]),
        _ => false,
    }
}

/// Whether the text of every number in `value` is canonical: parsed and
/// written out again, it is the same text.
pub open spec fn numbers_canonical(value: SpecValue) -> bool
    decreases value,
{
    match value {
        SpecValue::Number(text) => number_text(text) == Some(text),
        SpecValue::Array(items) => forall|i: int|
            0 <= i < items.len() ==> numbers_canonical(#[trigger] items[i]),
        SpecValue::Object(fields) => forall|key: Seq<char>|
            fields.contains_key(key) ==> numbers_canonical(#[trigger] fields[key]),
        _ => true,
    }
}

/// Round trip: a value that is encoded and then decoded comes back
/// unchanged, if and only if none of its strings is the sentinel and the
/// text of each of its numbers is canonical.
pub proof fn lemma_round_trip(value: SpecValue)
    requires
        value.well_formed(),
    ensures
        decode_spec(encode_spec(value)) == Some(value) <==> !holds_sentinel(value)
            && numbers_canonical(value),
    decreases value,
{
    let encoded = encode_spec(value);
    match value {
        SpecValue::Null => {},
        SpecValue::Bool(_) => {},
        SpecValue::Number(_) => {},
        SpecValue::String(text) => {
            if text.len() == 0 {
                assert(text =~= Seq::<char>::empty());
            }
        },
        SpecValue::Array(items) => {
            let attributes = encoded.l->0;
            assert forall|i: int| 0 <= i < items.len() implies (decode_spec(
                #[trigger] attributes[i],
            ) == Some(items[i]) <==> !holds_sentinel(items[i]) && numbers_canonical(items[i])) by {
                lemma_round_trip(items[i]);
            }
            if !holds_sentinel(value) && numbers_canonical(value) {
                assert(forall|i: int|
                    0 <= i < attributes.len() ==> decode_spec(#[trigger] attributes[i]) is Some);
                assert(decode_spec(encoded)->0->Array_0 =~= items);
            }
            if decode_spec(encoded) == Some(value) {
                assert(forall|i: int|
                    0 <= i < items.len() ==> !holds_sentinel(#[trigger] items[i])
                        && numbers_canonical(items[i]));
            }
        },
        SpecValue::Object(fields) => {
            let attributes = encoded.m->0;
            assert(attributes.dom() =~= fields.dom());
            assert forall|key: Seq<char>| fields.contains_key(key) implies (decode_spec(
                #[trigger] attributes[key],
            ) == Some(fields[key]) <==> !holds_sentinel(fields[key]) && numbers_canonical(
                fields[key],
            )) by {
                lemma_round_trip(fields[key]);
            }
            if !holds_sentinel(value) && numbers_canonical(value) {
                assert(forall|key: Seq<char>|
                    attributes.contains_key(key) ==> decode_spec(#[trigger] attributes[key])
                        is Some);
                assert(decode_spec(encoded)->0->Object_0 =~= fields);
            }
            if decode_spec(encoded) == Some(value) {
                assert(forall|key: Seq<char>|
                    fields.contains_key(key) ==> !holds_sentinel(#[trigger] fields[key])
                        && numbers_canonical(fields[key]));
            }
        },
    }
}

/// The encoder populates exactly one slot, in the attribute value it
/// returns and in every attribute value inside it.
pub proof fn lemma_encode_single_slot(value: SpecValue)
    requires
        value.well_formed(),
    ensures
        encode_spec(value).single_slot(),
        encode_spec(value).well_formed(),
    decreases value,
{
    let encoded = encode_spec(value);
    match value {
        SpecValue::Array(items) => {
            assert forall|i: int| 0 <= i < items.len() implies (#[trigger] encoded.l->0[i]).single_slot()
                && encoded.l->0[i].well_formed() by {
                lemma_encode_single_slot(items[i]);
            }
        },
        SpecValue::Object(fields) => {
            assert(encoded.m->0.dom() =~= fields.dom());
            assert forall|key: Seq<char>| fields.contains_key(key) implies (
            #[trigger] encoded.m->0[key]).single_slot() && encoded.m->0[key].well_formed() by {
                lemma_encode_single_slot(fields[key]);
            }
        },
        _ => {},
    }
}

/// The first item of a list, up to position `upto`, that has no value.
proof fn lemma_first_undecodable(items: Seq<SpecAttribute>, upto: int) -> (first: int)
    requires
        0 <= upto < items.len(),
        decode_spec(items[upto]) is None,
    ensures
        0 <= first <= upto,
        decode_spec(items[first]) is None,
        forall|j: int| 0 <= j < first ==> decode_spec(#[trigger] items[j]) is Some,
    decreases upto,
{
    if exists|j: int| 0 <= j < upto && decode_spec(#[trigger] items[j]) is None {
        let earlier = choose|j: int| 0 <= j < upto && decode_spec(#[trigger] items[j]) is None;
        lemma_first_undecodable(items, earlier)
    } else {
        upto
    }
}

/// Decoding fails exactly where some error describes the failure: an
/// attribute value has no value if and only if `decode_error` holds of it
/// and some error.
pub proof fn lemma_decode_error_iff_no_value(attribute: SpecAttribute)
    requires
        attribute.well_formed(),
    ensures
        decode_spec(attribute) is None <==> exists|error: CodecError|
            decode_error(attribute, error),
    decreases attribute,
{
    if let Some(bytes) = attribute.b {
        if !valid_utf8(bytes) {
            assert(decode_error(attribute, CodecError::InvalidUtf8));
        }
    } else if attribute.bool is Some {
    } else if let Some(members) = attribute.bs {
        if decode_spec(attribute) is None {
            assert(decode_error(attribute, CodecError::InvalidUtf8));
        }
    } else if let Some(items) = attribute.l {
        if decode_spec(attribute) is None {
            let some = choose|i: int| 0 <= i < items.len() && decode_spec(#[trigger] items[i]) is None;
            let first = lemma_first_undecodable(items, some);
            lemma_decode_error_iff_no_value(items[first]);
            let error = choose|error: CodecError| decode_error(items[first], error);
            assert(decode_error(attribute, error));
        }
        if exists|error: CodecError| decode_error(attribute, error) {
            let error = choose|error: CodecError| decode_error(attribute, error);
            let i = choose|i: int|
                0 <= i < items.len() && decode_error(#[trigger] items[i], error) && forall|j: int|
                    0 <= j < i ==> decode_spec(#[trigger] items[j]) is Some;
            lemma_decode_error_iff_no_value(items[i]);
        }
    } else if let Some(fields) = attribute.m {
        if decode_spec(attribute) is None {
            let key = choose|key: Seq<char>|
                fields.contains_key(key) && decode_spec(#[trigger] fields[key]) is None;
            lemma_decode_error_iff_no_value(fields[key]);
            let error = choose|error: CodecError| decode_error(fields[key], error);
            assert(decode_error(attribute, error));
        }
        if exists|error: CodecError| decode_error(attribute, error) {
            let error = choose|error: CodecError| decode_error(attribute, error);
            let key = choose|key: Seq<char>|
                fields.contains_key(key) && decode_error(#[trigger] fields[key], error);
            lemma_decode_error_iff_no_value(fields[key]);
        }
    } else if let Some(text) = attribute.n {
        if number_text(text) is None {
            assert(decode_error(attribute, CodecError::InvalidNumber));
        }
    } else if let Some(members) = attribute.ns {
        if decode_spec(attribute) is None {
            assert(decode_error(attribute, CodecError::InvalidNumber));
        }
    } else if attribute.null is Some {
    } else if attribute.s is Some {
    } else if attribute.ss is Some {
    } else {
        assert(decode_error(attribute, CodecError::EmptyAttribute));
    }
}

/// The object that a list of named values builds: each value inserted under
/// its name, in the order of the list.
pub open spec fn object_spec(pairs: Seq<(Seq<char>, SpecValue)>) -> Map<Seq<char>, SpecValue>
    decreases pairs.len(),
{
    if pairs.len() == 0 {
        Map::empty()
    } else {
        object_spec(pairs.drop_last()).insert(pairs.last().0, pairs.last().1)
    }
}

/// The field map built from a list of named values is the map slot of the
/// encoding of the object built from the same list.
pub proof fn lemma_fields_encode_object(pairs: Seq<(Seq<char>, SpecValue)>)
    ensures
        encode_spec(SpecValue::Object(object_spec(pairs))).m == Some(fields_spec(pairs)),
    decreases pairs.len(),
{
    if pairs.len() > 0 {
        lemma_fields_encode_object(pairs.drop_last());
    }
}

} // verus!
