use sourisdb::cursor::Cursor;
use sourisdb::integer::{Integer, IntegerSerError};
use sourisdb::store::{Store, StoreError, Version};
use sourisdb::values::{Value, ValueSerError};
use sourisdb::version::VersionSerError;

fn key(s: &str) -> String {
    s.to_string()
}

fn deser(bytes: &[u8]) -> Result<Store, StoreError> {
    let mut cursor = Cursor::new(bytes).unwrap();
    Store::deser(&mut cursor)
}

fn round_trip(s: &Store) -> Store {
    let bytes = s.ser().unwrap();
    let mut cursor = Cursor::new(&bytes).unwrap();
    let back = Store::deser(&mut cursor).unwrap();
    assert_eq!(cursor.remaining(), 0);
    back
}

fn sample_dict() -> Store {
    let mut s = Store::default();
    s.insert(key("a"), Value::Int(Integer::u8(5)));
    s.insert(key("b"), Value::Bool(true));
    s
}

#[test]
fn example_scenario() {
    let s = sample_dict();
    let back = round_trip(&s);
    assert!(matches!(back, Store::Dict { .. }));
    assert_eq!(back.len(), 2);
    assert_eq!(back.get(&key("a")), Some(&Value::Int(Integer::u8(5))));
    assert_eq!(back.get(&key("b")), Some(&Value::Bool(true)));
    assert_eq!(back, s);
}

#[test]
fn empty_dict_bytes_are_exact() {
    let bytes = Store::default().ser().unwrap();
    let mut expected = b"DADDYSTORE\0V0_1_0\0SIZE\0".to_vec();
    expected.extend([0x01, 0x00, 0x00]);
    assert_eq!(bytes, expected);
    assert_eq!(round_trip(&Store::default()), Store::default());
}

#[test]
fn empty_array_bytes_are_exact() {
    let bytes = Store::new_arr(vec![]).ser().unwrap();
    let mut expected = b"DADDYSTORE\0V0_2_0\0".to_vec();
    expected.extend([0x01, 0x00]);
    assert_eq!(bytes, expected);
    assert_eq!(round_trip(&Store::new_arr(vec![])), Store::new_arr(vec![]));
}

#[test]
fn one_entry_dict_bytes_are_exact() {
    let mut s = Store::default();
    s.insert(key("k"), Value::Binary(vec![9, 8]));
    let mut expected = b"DADDYSTORE\0V0_1_0\0SIZE\0".to_vec();
    expected.extend([0x01, 0x01, 0x00]);
    expected.extend([0x01, 0x01, 0x01, 0x03, b'k']);
    expected.extend([0x40, 9, 8]);
    assert_eq!(s.ser().unwrap(), expected);
}

#[test]
fn array_bytes_are_exact() {
    let s = Store::new_arr(vec![
        Value::Bool(true),
        Value::Ch('A'),
        Value::Int(Integer::u8(7)),
    ]);
    let mut expected = b"DADDYSTORE\0V0_2_0\0".to_vec();
    expected.extend([0x01, 0x03]);
    expected.extend([0x61]);
    expected.extend([0x00, 0x01, 0x41]);
    expected.extend([0x80, 0x01, 0x07]);
    assert_eq!(s.ser().unwrap(), expected);
    assert_eq!(round_trip(&s), s);
}

#[test]
fn array_of_one_boolean_is_header_count_value() {
    let s = Store::new_arr(vec![Value::Bool(true)]);
    let mut expected = b"DADDYSTORE\0V0_2_0\0".to_vec();
    expected.extend(Integer::usize(1).ser());
    expected.extend(Value::Bool(true).serialise().unwrap());
    assert_eq!(s.ser().unwrap(), expected);
    assert_eq!(expected.len(), 18 + 2 + 1);
}

#[test]
fn array_values_stand_back_to_back() {
    let values = vec![
        Value::String("hi".to_string()),
        Value::Binary(vec![1, 2]),
        Value::Store(Store::new_arr(vec![])),
    ];
    let mut expected = b"DADDYSTORE\0V0_2_0\0".to_vec();
    expected.extend(Integer::usize(values.len()).ser());
    for v in &values {
        expected.extend(v.serialise().unwrap());
    }
    assert_eq!(Store::new_arr(values).ser().unwrap(), expected);
}

#[test]
fn a_string_or_bytes_in_an_array_is_not_read_back() {
    let text = Store::new_arr(vec![Value::Bool(true), Value::String("hi".to_string())]);
    assert!(matches!(
        deser(&text.ser().unwrap()),
        Err(StoreError::ValueError(ValueSerError::UnknownLength))
    ));
    let bytes = Store::new_arr(vec![Value::Binary(vec![])]);
    assert!(matches!(
        deser(&bytes.ser().unwrap()),
        Err(StoreError::ValueError(ValueSerError::UnknownLength))
    ));
    let mut pushed = Store::default();
    pushed.push(Value::String("s".to_string()));
    assert!(matches!(
        deser(&pushed.ser().unwrap()),
        Err(StoreError::ValueError(ValueSerError::Store(_)))
    ));
    let mut keyed = Store::default();
    keyed.insert(key("text"), Value::String("hi".to_string()));
    keyed.insert(key("bytes"), Value::Binary(vec![]));
    let inside = Store::new_arr(vec![Value::Store(keyed)]);
    assert_eq!(round_trip(&inside), inside);
}

#[test]
fn nested_stores_round_trip() {
    let mut innermost = Store::default();
    innermost.insert(key("deep"), Value::String("çé".to_string()));
    innermost.insert(key("none"), Value::Binary(vec![]));
    innermost.push(Value::Int(Integer::i16(-300)));
    let level2 = Store::new_arr(vec![
        Value::Store(innermost),
        Value::Ch('x'),
        Value::Store(Store::new_arr(vec![])),
    ]);
    let mut level1 = Store::default();
    level1.insert(key("list"), Value::Store(level2));
    level1.insert(key("empty"), Value::Store(Store::default()));
    level1.insert(key(""), Value::Bool(false));
    let mut top = Store::default();
    top.insert(key("one"), Value::Store(level1.clone()));
    top.insert(key("two"), Value::Int(Integer::i64(-77_000)));
    top.push(Value::Store(level1));
    assert_eq!(round_trip(&top), top);

    let arr = Store::new_arr(vec![Value::Store(top.clone()), Value::Store(top)]);
    assert_eq!(round_trip(&arr), arr);
}

#[test]
fn dict_decoding_does_not_depend_on_entry_order() {
    let mut one = b"DADDYSTORE\0V0_1_0\0SIZE\0".to_vec();
    one.extend([0x01, 0x02, 0x00]);
    one.extend([0x01, 0x01, 0x01, 0x03, b'a']);
    one.extend([0x01, 0x01, 0x01, 0x01, b'b']);
    one.extend([0x80, 0x01, 0x05]);
    one.extend([0x61]);
    let mut two = b"DADDYSTORE\0V0_1_0\0SIZE\0".to_vec();
    two.extend([0x01, 0x02, 0x00]);
    two.extend([0x01, 0x01, 0x01, 0x01, b'b']);
    two.extend([0x01, 0x01, 0x01, 0x03, b'a']);
    two.extend([0x61]);
    two.extend([0x80, 0x01, 0x05]);
    assert_eq!(deser(&one).unwrap(), sample_dict());
    assert_eq!(deser(&two).unwrap(), sample_dict());
}

#[test]
fn later_duplicate_key_wins_when_decoding() {
    let mut bytes = b"DADDYSTORE\0V0_1_0\0SIZE\0".to_vec();
    bytes.extend([0x01, 0x02, 0x00]);
    bytes.extend([0x01, 0x01, 0x01, 0x01, b'a']);
    bytes.extend([0x01, 0x01, 0x01, 0x01, b'a']);
    bytes.extend([0x60]);
    bytes.extend([0x61]);
    let s = deser(&bytes).unwrap();
    assert_eq!(s.len(), 1);
    assert_eq!(s.get(&key("a")), Some(&Value::Bool(true)));
}

#[test]
fn title_and_separators_are_not_inspected() {
    let mut bytes = b"xxxxxxxxxxxV0_2_0y".to_vec();
    bytes.extend([0x01, 0x00]);
    assert_eq!(deser(&bytes).unwrap(), Store::new_arr(vec![]));
}

#[test]
fn truncation_by_one_byte_reports_missing_bytes() {
    let mut nested = Store::default();
    nested.insert(key("k"), Value::String("text".to_string()));
    nested.push(Value::Int(Integer::u64(u64::MAX)));
    let stores = vec![
        Store::default(),
        Store::new_arr(vec![]),
        sample_dict(),
        Store::new_arr(vec![Value::Ch('c'), Value::Bool(false)]),
        Store::new_arr(vec![Value::Store(nested.clone())]),
        nested,
    ];
    for s in stores {
        let bytes = s.ser().unwrap();
        for cut in 0..bytes.len() {
            let r = deser(&bytes[..cut]);
            assert!(is_missing_bytes(&r), "cut {cut}: {r:?}");
        }
    }
}

fn is_missing_bytes(r: &Result<Store, StoreError>) -> bool {
    match r {
        Err(e) => store_error_is_missing_bytes(e),
        Ok(_) => false,
    }
}

fn store_error_is_missing_bytes(e: &StoreError) -> bool {
    match e {
        StoreError::NotEnoughBytes => true,
        StoreError::VersionError(VersionSerError::NotEnoughBytes) => true,
        StoreError::IntegerError(IntegerSerError::NotEnoughBytes) => true,
        StoreError::ValueError(v) => match v {
            ValueSerError::NotEnoughBytes => true,
            ValueSerError::IntegerSerFailure(IntegerSerError::NotEnoughBytes) => true,
            ValueSerError::Store(inner) => store_error_is_missing_bytes(inner),
            _ => false,
        },
        _ => false,
    }
}

#[test]
fn store_decode_errors() {
    assert!(matches!(deser(b"DADDY"), Err(StoreError::NotEnoughBytes)));
    assert!(matches!(
        deser(b"DADDYSTORE\0V0_1"),
        Err(StoreError::VersionError(VersionSerError::NotEnoughBytes))
    ));
    assert!(matches!(
        deser(b"DADDYSTORE\0V9_9_9\0"),
        Err(StoreError::VersionError(VersionSerError::Invalid))
    ));
    assert!(matches!(
        deser(b"DADDYSTORE\0V0_1_0\0SIZE\0\x03"),
        Err(StoreError::IntegerError(IntegerSerError::InvalidWidth(3)))
    ));
    assert!(matches!(
        deser(b"DADDYSTORE\0V0_2_0\0\x81\x01"),
        Err(StoreError::IntegerError(IntegerSerError::OutOfRange))
    ));
    assert!(matches!(
        deser(b"DADDYSTORE\0V0_2_0\0\x01\x01\xE0"),
        Err(StoreError::ValueError(ValueSerError::InvalidType(7)))
    ));
    assert!(matches!(
        deser(b"DADDYSTORE\0V0_2_0\0\x01\x01\x20"),
        Err(StoreError::ValueError(ValueSerError::UnknownLength))
    ));
    assert!(matches!(
        deser(b"DADDYSTORE\0V0_2_0\0\x01\x02\x61"),
        Err(StoreError::ValueError(ValueSerError::NotEnoughBytes))
    ));
    assert!(matches!(
        deser(b"DADDYSTORE\0V0_1_0\0SIZE\0\x01\x01\0\x01\x01\x01\x00k\x61"),
        Err(StoreError::ValueError(ValueSerError::Empty))
    ));
    assert!(matches!(
        deser(b"DADDYSTORE\0V0_1_0\0SIZE\0\x01\x01\0\x01\x01\x01\x01\xFF\x60"),
        Err(StoreError::StringEncoding(_))
    ));
    assert!(matches!(
        deser(b"DADDYSTORE\0V0_1_0\0SIZE\0\x01\x01\0\x01\x05\x01\x01Array\x60"),
        Err(StoreError::FoundArrayKeyThatWasntArray)
    ));
    assert!(matches!(Version::from_code(3), Err(StoreError::InvalidVersion(3))));
}

#[test]
fn reserved_key_must_hold_an_array() {
    let bad = Store::new_map(vec![(key("Array"), Value::Bool(true))]);
    assert!(matches!(bad, Err(StoreError::FoundArrayKeyThatWasntArray)));

    let bad_dict = Store::new_map(vec![(key("Array"), Value::Store(Store::default()))]);
    assert!(matches!(bad_dict, Err(StoreError::FoundArrayKeyThatWasntArray)));

    let good = Store::new_map(vec![
        (key("Array"), Value::Store(Store::new_arr(vec![Value::Bool(true)]))),
        (key("other"), Value::Ch('z')),
    ])
    .unwrap();
    assert_eq!(good.len(), 2);
    assert!(good.is_valid());

    let mut inner = Store::default();
    inner.insert(key("x"), Value::Bool(false));
    if let Some(slot) = inner.get_mut(&key("x")) {
        *slot = Value::Int(Integer::u8(1));
    }
    inner.insert(key("Array"), Value::Bool(true));
    if let Some(slot) = inner.get_mut(&key("Array")) {
        *slot = Value::Bool(true);
    }
    assert!(!inner.is_valid());
    let nested_bad = Store::new_map(vec![(key("fine"), Value::Store(inner))]);
    assert!(matches!(nested_bad, Err(StoreError::FoundArrayKeyThatWasntArray)));
}

#[test]
fn new_map_keeps_the_later_of_two_equal_keys() {
    let s = Store::new_map(vec![
        (key("k"), Value::Bool(false)),
        (key("k"), Value::Bool(true)),
    ])
    .unwrap();
    assert_eq!(s.len(), 1);
    assert_eq!(s.get(&key("k")), Some(&Value::Bool(true)));
}

#[test]
fn push_on_a_dict_goes_to_the_reserved_key() {
    let mut s = Store::default();
    s.push(Value::Bool(true));
    assert_eq!(
        s.get(&key("Array")),
        Some(&Value::Store(Store::new_arr(vec![Value::Bool(true)])))
    );
    s.push(Value::Ch('q'));
    s.insert(key("Array"), Value::Int(Integer::u8(3)));
    assert_eq!(
        s.get(&key("Array")),
        Some(&Value::Store(Store::new_arr(vec![
            Value::Bool(true),
            Value::Ch('q'),
            Value::Int(Integer::u8(3)),
        ])))
    );
    s.insert(
        key("Array"),
        Value::Store(Store::new_arr(vec![Value::Bool(false), Value::Bool(false)])),
    );
    match s.get(&key("Array")) {
        Some(Value::Store(inner)) => assert_eq!(inner.len(), 5),
        other => panic!("{other:?}"),
    }
    assert_eq!(s.len(), 1);
    assert!(s.is_valid());
}

#[test]
fn insert_replaces_under_an_ordinary_key() {
    let mut s = Store::default();
    s.insert(key("k"), Value::Bool(false));
    s.insert(key("k"), Value::Bool(true));
    assert_eq!(s.len(), 1);
    assert_eq!(s.get(&key("k")), Some(&Value::Bool(true)));
    assert_eq!(s.remove(&key("k")), Some(Value::Bool(true)));
    assert_eq!(s.remove(&key("k")), None);
    assert!(s.is_empty());
}

#[test]
fn arrays_have_no_keys() {
    let mut a = Store::new_arr(vec![Value::Bool(true)]);
    for k in ["0", "Array", "", "anything"] {
        assert_eq!(a.get(&key(k)), None);
        assert!(a.get_mut(&key(k)).is_none());
        assert_eq!(a.remove(&key(k)), None);
    }
    assert_eq!(a, Store::new_arr(vec![Value::Bool(true)]));
    a.insert(key("ignored"), Value::Ch('c'));
    a.push(Value::Store(Store::new_arr(vec![Value::Bool(false)])));
    assert_eq!(
        a,
        Store::new_arr(vec![
            Value::Bool(true),
            Value::Ch('c'),
            Value::Store(Store::new_arr(vec![Value::Bool(false)])),
        ])
    );
    assert_eq!(a.len(), 3);
    a.clear();
    assert!(a.is_empty());
    assert!(matches!(a, Store::Array { .. }));
}

#[test]
fn clear_keeps_the_shape() {
    let mut s = sample_dict();
    s.clear();
    assert!(s.is_empty());
    assert_eq!(s, Store::default());
}

#[test]
fn shape_codes() {
    assert_eq!(Version::of(&Store::default()), Version::Dict);
    assert_eq!(Version::of(&Store::new_arr(vec![])), Version::Array);
    assert_eq!(Version::Dict.code(), 1);
    assert_eq!(Version::Array.code(), 2);
    assert!(matches!(Version::from_code(1), Ok(Version::Dict)));
    assert!(matches!(Version::from_code(2), Ok(Version::Array)));
    assert!(matches!(Version::from_code(0), Err(StoreError::InvalidVersion(0))));
}
