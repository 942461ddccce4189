use dynamodb_data::attribute::{AttributeValue, FieldMap};
use dynamodb_data::decoding::{attribute_value_hashmap_to_json_map, attribute_value_to_json};
use dynamodb_data::encoding::{json_to_attribute_value, json_to_attribute_value_hashmap};
use dynamodb_data::error::CodecError;
use dynamodb_data::number::Number;
use dynamodb_data::text_map::TextMap;
use dynamodb_data::value::Value;
use dynamodb_data::{from_attribute_value, from_fields, to_attribute_value, to_fields};

fn number(literal: &str) -> Value {
    Value::Number(Number::parse(literal).expect("a numeric literal"))
}

fn text(s: &str) -> Value {
    Value::String(s.to_string())
}

fn object(pairs: Vec<(&str, Value)>) -> Value {
    let mut fields = TextMap::new();
    for (key, value) in pairs {
        fields.insert(key.to_string(), value);
    }
    Value::Object(fields)
}

fn populated_slots(attribute: &AttributeValue) -> usize {
    let flags = [
        attribute.b.is_some(),
        attribute.bool.is_some(),
        attribute.bs.is_some(),
        attribute.l.is_some(),
        attribute.m.is_some(),
        attribute.n.is_some(),
        attribute.ns.is_some(),
        attribute.null.is_some(),
        attribute.s.is_some(),
        attribute.ss.is_some(),
    ];
    flags.iter().filter(|flag| **flag).count()
}

fn sample() -> Value {
    object(vec![
        ("id", text("test")),
        ("counter", number("0")),
        ("ratio", number("2.5")),
        ("debt", number("-17")),
        ("active", Value::Bool(true)),
        ("nothing", Value::Null),
        ("tags", Value::Array(vec![text("a"), text("b"), Value::Array(vec![])])),
        ("inner", object(vec![("deep", object(vec![("x", number("1"))]))])),
    ])
}

#[test]
fn null_becomes_the_null_marker() {
    let attribute = to_attribute_value(Value::Null);
    let mut expected = AttributeValue::default();
    expected.null = Some(true);
    assert_eq!(attribute, expected);
}

#[test]
fn bool_becomes_a_bool() {
    let attribute = to_attribute_value(Value::Bool(false));
    let mut expected = AttributeValue::default();
    expected.bool = Some(false);
    assert_eq!(attribute, expected);
}

#[test]
fn number_becomes_its_text() {
    let attribute = to_attribute_value(number("42"));
    let mut expected = AttributeValue::default();
    expected.n = Some("42".to_string());
    assert_eq!(attribute, expected);
}

#[test]
fn string_stays_a_string() {
    let attribute = to_attribute_value(text("Hello World"));
    let mut expected = AttributeValue::default();
    expected.s = Some("Hello World".to_string());
    assert_eq!(attribute, expected);
}

#[test]
fn empty_string_is_encoded_as_sentinel() {
    let attribute = to_attribute_value(text(""));
    assert_eq!(attribute.s, Some("\u{0}".to_string()));
    assert_eq!(populated_slots(&attribute), 1);
    assert_eq!(from_attribute_value(attribute), Ok(text("")));
}

#[test]
fn nul_string_collides_with_empty_string() {
    let from_nul = to_attribute_value(text("\u{0}"));
    let from_empty = to_attribute_value(text(""));
    assert_eq!(from_nul, from_empty);
    assert_eq!(from_attribute_value(from_nul), Ok(text("")));
    assert_eq!(from_attribute_value(from_empty), Ok(text("")));
}

#[test]
fn string_that_holds_a_nul_among_others_is_kept() {
    let value = text("a\u{0}b");
    assert_eq!(from_attribute_value(to_attribute_value(text("a\u{0}b"))), Ok(value));
    let two = text("\u{0}\u{0}");
    assert_eq!(from_attribute_value(to_attribute_value(text("\u{0}\u{0}"))), Ok(two));
}

#[test]
fn number_zero_round_trips() {
    let attribute = to_attribute_value(number("0"));
    assert_eq!(attribute.n, Some("0".to_string()));
    match from_attribute_value(attribute) {
        Ok(Value::Number(n)) => {
            assert_eq!(n.as_str().parse::<f64>().unwrap(), 0.0);
            assert_eq!(n.as_str(), "0");
        },
        other => panic!("not a number: {:?}", other),
    }
}

#[test]
fn number_with_a_fraction_round_trips_numerically() {
    let attribute = to_attribute_value(number("1.0"));
    match from_attribute_value(attribute) {
        Ok(Value::Number(n)) => assert_eq!(n.as_str().parse::<f64>().unwrap(), 1.0),
        other => panic!("not a number: {:?}", other),
    }
}

#[test]
fn array_is_encoded_item_by_item_in_order() {
    let attribute = to_attribute_value(Value::Array(vec![number("1"), text("x"), Value::Null]));
    let items = attribute.l.expect("a list");
    assert_eq!(items.len(), 3);
    assert_eq!(items[0].n, Some("1".to_string()));
    assert_eq!(items[1].s, Some("x".to_string()));
    assert_eq!(items[2].null, Some(true));
}

#[test]
fn object_is_encoded_value_by_value() {
    let attribute = to_attribute_value(object(vec![("a", Value::Bool(true)), ("b", text(""))]));
    let fields = attribute.m.expect("a map");
    assert_eq!(fields.len(), 2);
    assert_eq!(fields.get("a").unwrap().bool, Some(true));
    assert_eq!(fields.get("b").unwrap().s, Some("\u{0}".to_string()));
    assert!(fields.get("c").is_none());
}

#[test]
fn container_round_trip() {
    let value =
        Value::Array(vec![number("1"), text("x"), object(vec![("a", Value::Bool(true))])]);
    let again =
        Value::Array(vec![number("1"), text("x"), object(vec![("a", Value::Bool(true))])]);
    let decoded = from_attribute_value(to_attribute_value(value)).expect("decodes");
    assert_eq!(decoded, again);
    match decoded {
        Value::Array(items) => {
            assert_eq!(items.len(), 3);
            assert_eq!(items[0], number("1"));
            assert_eq!(items[1], text("x"));
            match &items[2] {
                Value::Object(fields) => {
                    assert_eq!(fields.len(), 1);
                    assert_eq!(fields.get("a"), Some(&Value::Bool(true)));
                },
                other => panic!("not an object: {:?}", other),
            }
        },
        other => panic!("not an array: {:?}", other),
    }
}

#[test]
fn round_trip_of_a_nested_value() {
    let decoded = from_attribute_value(to_attribute_value(sample()));
    assert_eq!(decoded, Ok(sample()));
    let by_reference = attribute_value_to_json(&json_to_attribute_value(&sample()));
    assert_eq!(by_reference, Ok(sample()));
}

#[test]
fn encoder_populates_one_slot_everywhere() {
    let attribute = to_attribute_value(sample());
    assert_eq!(populated_slots(&attribute), 1);
    let fields = attribute.m.expect("a map");
    for (_, inner) in fields.entries() {
        assert_eq!(populated_slots(inner), 1);
    }
    let tags = fields.get("tags").unwrap().l.as_ref().expect("a list");
    for tag in tags {
        assert_eq!(populated_slots(tag), 1);
    }
}

#[test]
fn to_fields_gives_the_map_of_the_object() {
    let fields = to_fields(sample()).expect("an object");
    let whole = to_attribute_value(sample());
    assert_eq!(Some(fields), whole.m);
}

#[test]
fn to_fields_rejects_non_object() {
    assert_eq!(to_fields(number("5")), Err(CodecError::NotAnObject));
    assert_eq!(to_fields(Value::Null), Err(CodecError::NotAnObject));
    assert_eq!(to_fields(Value::Array(vec![])), Err(CodecError::NotAnObject));
    assert_eq!(json_to_attribute_value_hashmap(&text("x")), Err(CodecError::NotAnObject));
}

#[test]
fn to_fields_of_an_empty_object_is_empty() {
    let fields = to_fields(object(vec![])).expect("an object");
    assert!(fields.is_empty());
    assert_eq!(fields.len(), 0);
}

#[test]
fn from_fields_gives_an_object() {
    let fields = to_fields(sample()).expect("an object");
    assert_eq!(from_fields(fields), Ok(sample()));
}

#[test]
fn from_fields_fails_where_an_entry_fails() {
    let mut fields: FieldMap = TextMap::new();
    let mut good = AttributeValue::default();
    good.s = Some("fine".to_string());
    fields.insert("good".to_string(), good);
    fields.insert("bad".to_string(), AttributeValue::default());
    assert_eq!(attribute_value_hashmap_to_json_map(&fields).err(), Some(CodecError::EmptyAttribute));
    assert_eq!(from_fields(fields), Err(CodecError::EmptyAttribute));
}

#[test]
fn empty_attribute_is_rejected() {
    assert_eq!(from_attribute_value(AttributeValue::default()), Err(CodecError::EmptyAttribute));
}

#[test]
fn binary_is_read_as_utf8() {
    let mut attribute = AttributeValue::default();
    attribute.b = Some(vec![0xe2, 0x82, 0xac, b'5']);
    assert_eq!(from_attribute_value(attribute), Ok(text("\u{20ac}5")));
}

#[test]
fn binary_that_is_not_utf8_is_rejected() {
    let mut attribute = AttributeValue::default();
    attribute.b = Some(vec![0xff, 0xfe]);
    assert_eq!(from_attribute_value(attribute), Err(CodecError::InvalidUtf8));
}

#[test]
fn binary_set_becomes_an_array_of_strings() {
    let mut attribute = AttributeValue::default();
    attribute.bs = Some(vec![b"one".to_vec(), Vec::new(), b"three".to_vec()]);
    assert_eq!(
        from_attribute_value(attribute),
        Ok(Value::Array(vec![text("one"), text(""), text("three")]))
    );
}

#[test]
fn binary_set_with_a_bad_member_is_rejected() {
    let mut attribute = AttributeValue::default();
    attribute.bs = Some(vec![b"one".to_vec(), vec![0xc0]]);
    assert_eq!(from_attribute_value(attribute), Err(CodecError::InvalidUtf8));
}

#[test]
fn number_text_is_parsed() {
    let mut attribute = AttributeValue::default();
    attribute.n = Some("12".to_string());
    assert_eq!(from_attribute_value(attribute), Ok(number("12")));
}

#[test]
fn number_text_is_brought_to_canonical_form() {
    let mut attribute = AttributeValue::default();
    attribute.n = Some(" 1e2 ".to_string());
    match from_attribute_value(attribute) {
        Ok(Value::Number(n)) => assert_eq!(n.as_str(), "100.0"),
        other => panic!("not a number: {:?}", other),
    }
}

#[test]
fn number_text_that_is_no_number_is_rejected() {
    for bad in ["", "abc", "true", "\"1\"", "1 2", "0x10", "--1", "[1]"] {
        let mut attribute = AttributeValue::default();
        attribute.n = Some(bad.to_string());
        assert_eq!(from_attribute_value(attribute), Err(CodecError::InvalidNumber), "{:?}", bad);
    }
}

#[test]
fn number_set_becomes_an_array_of_numbers() {
    let mut attribute = AttributeValue::default();
    attribute.ns = Some(vec!["1".to_string(), "-2".to_string(), "3.5".to_string()]);
    assert_eq!(
        from_attribute_value(attribute),
        Ok(Value::Array(vec![number("1"), number("-2"), number("3.5")]))
    );
}

#[test]
fn number_set_with_a_bad_member_is_rejected() {
    let mut attribute = AttributeValue::default();
    attribute.ns = Some(vec!["1".to_string(), "one".to_string()]);
    assert_eq!(from_attribute_value(attribute), Err(CodecError::InvalidNumber));
}

#[test]
fn null_marker_is_null_whatever_it_holds() {
    let mut marked = AttributeValue::default();
    marked.null = Some(true);
    assert_eq!(from_attribute_value(marked), Ok(Value::Null));
    let mut unmarked = AttributeValue::default();
    unmarked.null = Some(false);
    assert_eq!(from_attribute_value(unmarked), Ok(Value::Null));
}

#[test]
fn string_set_becomes_an_array_of_strings() {
    let mut attribute = AttributeValue::default();
    attribute.ss = Some(vec!["x".to_string(), "\u{0}".to_string(), "".to_string()]);
    assert_eq!(
        from_attribute_value(attribute),
        Ok(Value::Array(vec![text("x"), text("\u{0}"), text("")]))
    );
}

#[test]
fn empty_sets_and_lists_become_empty_arrays() {
    let mut binary = AttributeValue::default();
    binary.bs = Some(Vec::new());
    assert_eq!(from_attribute_value(binary), Ok(Value::Array(vec![])));
    let mut numbers = AttributeValue::default();
    numbers.ns = Some(Vec::new());
    assert_eq!(from_attribute_value(numbers), Ok(Value::Array(vec![])));
    let mut strings = AttributeValue::default();
    strings.ss = Some(Vec::new());
    assert_eq!(from_attribute_value(strings), Ok(Value::Array(vec![])));
    let mut list = AttributeValue::default();
    list.l = Some(Vec::new());
    assert_eq!(from_attribute_value(list), Ok(Value::Array(vec![])));
}

#[test]
fn first_populated_slot_decides() {
    let mut all = AttributeValue {
        b: Some(b"bytes".to_vec()),
        bool: Some(true),
        bs: Some(vec![b"set".to_vec()]),
        l: Some(vec![]),
        m: Some(TextMap::new()),
        n: Some("1".to_string()),
        ns: Some(vec!["2".to_string()]),
        null: Some(true),
        s: Some("text".to_string()),
        ss: Some(vec!["member".to_string()]),
    };
    assert_eq!(attribute_value_to_json(&all), Ok(text("bytes")));
    all.b = None;
    assert_eq!(attribute_value_to_json(&all), Ok(Value::Bool(true)));
    all.bool = None;
    assert_eq!(attribute_value_to_json(&all), Ok(Value::Array(vec![text("set")])));
    all.bs = None;
    assert_eq!(attribute_value_to_json(&all), Ok(Value::Array(vec![])));
    all.l = None;
    assert_eq!(attribute_value_to_json(&all), Ok(object(vec![])));
    all.m = None;
    assert_eq!(attribute_value_to_json(&all), Ok(number("1")));
    all.n = None;
    assert_eq!(attribute_value_to_json(&all), Ok(Value::Array(vec![number("2")])));
    all.ns = None;
    assert_eq!(attribute_value_to_json(&all), Ok(Value::Null));
    all.null = None;
    assert_eq!(attribute_value_to_json(&all), Ok(text("text")));
    all.s = None;
    assert_eq!(attribute_value_to_json(&all), Ok(Value::Array(vec![text("member")])));
    all.ss = None;
    assert_eq!(attribute_value_to_json(&all), Err(CodecError::EmptyAttribute));
}

#[test]
fn earlier_slot_that_fails_hides_later_ones() {
    let mut attribute = AttributeValue::default();
    attribute.b = Some(vec![0x80]);
    attribute.s = Some("fine".to_string());
    assert_eq!(from_attribute_value(attribute), Err(CodecError::InvalidUtf8));
}

#[test]
fn list_fails_with_the_error_of_its_first_bad_item() {
    let mut good = AttributeValue::default();
    good.bool = Some(true);
    let mut bad_number = AttributeValue::default();
    bad_number.n = Some("x".to_string());
    let mut bad_bytes = AttributeValue::default();
    bad_bytes.b = Some(vec![0xff]);
    let mut list = AttributeValue::default();
    list.l = Some(vec![good, bad_number, bad_bytes, AttributeValue::default()]);
    assert_eq!(from_attribute_value(list), Err(CodecError::InvalidNumber));
}

#[test]
fn failure_deep_inside_comes_out() {
    let mut bad = AttributeValue::default();
    bad.b = Some(vec![0xff]);
    let mut inner = AttributeValue::default();
    inner.l = Some(vec![bad]);
    let mut fields: FieldMap = TextMap::new();
    fields.insert("inner".to_string(), inner);
    let mut outer = AttributeValue::default();
    outer.m = Some(fields);
    assert_eq!(from_attribute_value(outer), Err(CodecError::InvalidUtf8));
}

#[test]
fn sentinel_inside_containers_is_decoded_as_empty() {
    let mut item = AttributeValue::default();
    item.s = Some("\u{0}".to_string());
    let mut list = AttributeValue::default();
    list.l = Some(vec![item]);
    assert_eq!(from_attribute_value(list), Ok(Value::Array(vec![text("")])));
}

#[test]
fn default_attribute_has_no_slot() {
    assert_eq!(populated_slots(&AttributeValue::default()), 0);
}

#[test]
fn error_messages_differ() {
    let all = [
        CodecError::InvalidUtf8,
        CodecError::InvalidNumber,
        CodecError::EmptyAttribute,
        CodecError::NotAnObject,
    ];
    for (i, a) in all.iter().enumerate() {
        assert!(!a.message().is_empty());
        for b in all.iter().skip(i + 1) {
            assert_ne!(a.message(), b.message());
        }
    }
    assert_eq!(CodecError::NotAnObject.message(), "value is not an object");
}
