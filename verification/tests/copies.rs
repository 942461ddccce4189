use dynamodb_data::attribute::AttributeValue;
use dynamodb_data::number::Number;
use dynamodb_data::text_map::TextMap;
use dynamodb_data::to_attribute_value;
use dynamodb_data::value::Value;

fn nested() -> Value {
    let mut inner = TextMap::new();
    inner.insert("n".to_string(), Value::Number(Number::parse("3.5").unwrap()));
    inner.insert("s".to_string(), Value::String("text".to_string()));
    let mut outer = TextMap::new();
    outer.insert("inner".to_string(), Value::Object(inner));
    outer.insert(
        "list".to_string(),
        Value::Array(vec![Value::Null, Value::Bool(true), Value::Array(vec![])]),
    );
    Value::Object(outer)
}

#[test]
fn copy_of_a_value_is_equal_to_it() {
    let value = nested();
    assert_eq!(value.clone(), value);
    assert_eq!(value.duplicate(), nested());
    assert_eq!(Value::Null.clone(), Value::Null);
}

#[test]
fn copy_of_an_attribute_value_is_equal_to_it() {
    let attribute = to_attribute_value(nested());
    assert_eq!(attribute.clone(), attribute);
    let all = AttributeValue {
        b: Some(vec![1, 2, 3]),
        bool: Some(false),
        bs: Some(vec![vec![4], vec![]]),
        l: Some(vec![attribute.duplicate()]),
        m: attribute.duplicate().m,
        n: Some("1".to_string()),
        ns: Some(vec!["2".to_string()]),
        null: Some(false),
        s: Some("s".to_string()),
        ss: Some(vec!["a".to_string(), "b".to_string()]),
    };
    assert_eq!(all.duplicate(), all);
    assert_eq!(AttributeValue::default().clone(), AttributeValue::default());
}

#[test]
fn copy_does_not_follow_later_changes() {
    let mut map: TextMap<Value> = TextMap::new();
    map.insert("k".to_string(), Value::Bool(true));
    let before = Value::Object(map.clone());
    map.insert("k".to_string(), Value::Bool(false));
    assert_ne!(before, Value::Object(map));
}
