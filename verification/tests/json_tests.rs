use sourisdb::integer::{Integer, SignedState};
use sourisdb::json::{parse_decimal, Json, JsonEntry};
use sourisdb::store::{Store, StoreError};
use sourisdb::values::{Value, ValueSerError};

fn entry(key: &str, value: Json) -> JsonEntry {
    JsonEntry { key: key.to_string(), value }
}

fn tree(v: serde_json::Value) -> Json {
    match v {
        serde_json::Value::Null => Json::Null,
        serde_json::Value::Bool(b) => Json::Bool(b),
        serde_json::Value::Number(n) => Json::Number(n.to_string()),
        serde_json::Value::String(s) => Json::String(s),
        serde_json::Value::Array(a) => Json::Array(a.into_iter().map(tree).collect()),
        serde_json::Value::Object(o) => {
            Json::Object(o.into_iter().map(|(k, v)| entry(&k, tree(v))).collect())
        }
    }
}

#[test]
fn decimal_texts() {
    assert_eq!(parse_decimal("0"), Some(Integer::u8(0)));
    assert_eq!(parse_decimal("42"), Some(Integer::u8(42)));
    assert_eq!(parse_decimal("-42"), Some(Integer::i8(-42)));
    assert_eq!(parse_decimal("-0"), Some(Integer::new(SignedState::Negative, 0)));
    assert_eq!(
        parse_decimal("340282366920938463463374607431768211455"),
        Some(Integer::u128(u128::MAX))
    );
    assert_eq!(parse_decimal("340282366920938463463374607431768211456"), None);
    assert_eq!(parse_decimal("3402823669209384634633746074317682114550"), None);
    assert_eq!(parse_decimal(""), None);
    assert_eq!(parse_decimal("-"), None);
    assert_eq!(parse_decimal("1.5"), None);
    assert_eq!(parse_decimal("1e3"), None);
    assert_eq!(parse_decimal("+1"), None);
    assert_eq!(parse_decimal("١٢"), None);
}

#[test]
fn scalars_become_values() {
    assert_eq!(Value::from_json_value(Json::Null), Value::String("null".to_string()));
    assert_eq!(Value::from_json_value(Json::Bool(true)), Value::Bool(true));
    assert_eq!(
        Value::from_json_value(Json::Number("17".to_string())),
        Value::Int(Integer::u8(17))
    );
    assert_eq!(
        Value::from_json_value(Json::Number("-17".to_string())),
        Value::Int(Integer::i8(-17))
    );
    assert_eq!(
        Value::from_json_value(Json::Number("1.5".to_string())),
        Value::String("1.5".to_string())
    );
    assert_eq!(
        Value::from_json_value(Json::String("s".to_string())),
        Value::String("s".to_string())
    );
}

#[test]
fn trees_become_stores() {
    let json = Json::Object(vec![
        entry("list", Json::Array(vec![Json::Bool(false), Json::Number("3".to_string())])),
        entry("inner", Json::Object(vec![entry("k", Json::String("v".to_string()))])),
        entry("twice", Json::Bool(false)),
        entry("twice", Json::Bool(true)),
    ]);
    let store = Store::from_json_value(json).unwrap();
    let mut inner = Store::default();
    inner.insert("k".to_string(), Value::String("v".to_string()));
    let mut expected = Store::default();
    expected.insert(
        "list".to_string(),
        Value::Store(Store::new_arr(vec![Value::Bool(false), Value::Int(Integer::u8(3))])),
    );
    expected.insert("inner".to_string(), Value::Store(inner));
    expected.insert("twice".to_string(), Value::Bool(true));
    assert_eq!(store, expected);

    let array = Store::from_json_value(Json::Array(vec![Json::Null])).unwrap();
    assert_eq!(array, Store::new_arr(vec![Value::String("null".to_string())]));

    let scalar = Store::from_json_value(Json::Number("8".to_string())).unwrap();
    let mut expected = Store::default();
    expected.insert("JSON Array".to_string(), Value::Int(Integer::u8(8)));
    assert_eq!(scalar, expected);
}

#[test]
fn json_respects_the_reserved_key() {
    let bad = Json::Object(vec![entry("Array", Json::Bool(true))]);
    assert!(matches!(
        Store::from_json_value(bad),
        Err(StoreError::FoundArrayKeyThatWasntArray)
    ));
    let nested_bad = Json::Array(vec![Json::Object(vec![entry("Array", Json::Null)])]);
    assert!(matches!(
        Store::from_json_value(nested_bad),
        Err(StoreError::FoundArrayKeyThatWasntArray)
    ));
    let good = Json::Object(vec![entry("Array", Json::Array(vec![]))]);
    assert!(Store::from_json_value(good).is_ok());
}

#[test]
fn parsed_text_becomes_a_store() {
    let text = br#"{"name": "souris", "tags": ["a", 1, -2, 2.5, null, true], "n": {"x": 18446744073709551615}}"#;
    let parsed: serde_json::Value = serde_json::from_slice(text).unwrap();
    let store = Store::from_json_value(tree(parsed)).unwrap();
    assert_eq!(store.get(&"name".to_string()), Some(&Value::String("souris".to_string())));
    assert_eq!(
        store.get(&"tags".to_string()),
        Some(&Value::Store(Store::new_arr(vec![
            Value::String("a".to_string()),
            Value::Int(Integer::u8(1)),
            Value::Int(Integer::i8(-2)),
            Value::String("2.5".to_string()),
            Value::String("null".to_string()),
            Value::Bool(true),
        ])))
    );
    let mut n = Store::default();
    n.insert("x".to_string(), Value::Int(Integer::u64(u64::MAX)));
    assert_eq!(store.get(&"n".to_string()), Some(&Value::Store(n)));
    let bytes = store.ser().unwrap();
    assert!(matches!(
        Store::from_bytes(&bytes),
        Err(StoreError::ValueError(ValueSerError::Store(_)))
    ));
}

#[test]
fn parsed_text_without_strings_in_arrays_round_trips() {
    let text = br#"{"name": "souris", "flags": [true, 1, -2, {"note": "kept"}], "n": {"x": 7}}"#;
    let parsed: serde_json::Value = serde_json::from_slice(text).unwrap();
    let store = Store::from_json_value(tree(parsed)).unwrap();
    let bytes = store.ser().unwrap();
    assert_eq!(Store::from_bytes(&bytes).unwrap(), store);
}
