use sourisdb::cursor::Cursor;
use sourisdb::integer::{Integer, IntegerSerError};
use sourisdb::store::Store;
use sourisdb::values::{DeserState, Value, ValueSerError, ValueTy};

fn round_trip(v: &Value) -> Value {
    let ser = v.serialise().unwrap();
    let mut cursor = Cursor::new(&ser).unwrap();
    let back = Value::deserialise(&mut cursor, ser.len()).unwrap();
    assert_eq!(cursor.remaining(), 0);
    back
}

#[test]
fn test_bools() {
    {
        let t = Value::Bool(true);
        let ser = t.clone().serialise().unwrap();

        let expected = &[ValueTy::Bool.id() << 5 | 1];
        assert_eq!(&ser, expected);

        assert_eq!(
            t,
            Value::deserialise(&mut Cursor::new(&ser).unwrap(), ser.len()).unwrap()
        );
    }
    {
        let f = Value::Bool(false);
        let ser = f.clone().serialise().unwrap();

        let expected = &[ValueTy::Bool.id() << 5];
        assert_eq!(&ser, expected);

        assert_eq!(
            f,
            Value::deserialise(&mut Cursor::new(&ser).unwrap(), ser.len()).unwrap()
        );
    }
}

#[test]
fn test_ints() {
    {
        let neg = Value::Int(Integer::i8(-15));
        let ser = neg.clone().serialise().unwrap();

        assert_eq!(
            neg,
            Value::deserialise(&mut Cursor::new(&ser).unwrap(), ser.len()).unwrap()
        );
    }
    {
        let big = Value::Int(Integer::usize(123_456_789));
        let ser = big.clone().serialise().unwrap();

        assert_eq!(
            big,
            Value::deserialise(&mut Cursor::new(&ser).unwrap(), ser.len()).unwrap()
        );
    }
}

#[test]
fn type_ids_are_the_documented_tags() {
    assert_eq!(ValueTy::Ch.id(), 0b000);
    assert_eq!(ValueTy::String.id(), 0b001);
    assert_eq!(ValueTy::Binary.id(), 0b010);
    assert_eq!(ValueTy::Bool.id(), 0b011);
    assert_eq!(ValueTy::Int.id(), 0b100);
    assert_eq!(ValueTy::Store.id(), 0b101);
}

#[test]
fn bool_niche_bytes_are_exact() {
    let t = Value::Bool(true).serialise().unwrap();
    assert_eq!(t, vec![0b0110_0001]);
    assert_eq!(t[0] >> 5, ValueTy::Bool.id());
    assert_eq!(t[0] & 1, 1);
    let f = Value::Bool(false).serialise().unwrap();
    assert_eq!(f, vec![0b0110_0000]);
    assert_eq!(f[0] & 0b0001_1111, 0);
    assert_eq!(round_trip(&Value::Bool(true)), Value::Bool(true));
    assert_eq!(round_trip(&Value::Bool(false)), Value::Bool(false));
}

#[test]
fn bool_niche_reads_any_low_bit_as_true() {
    let bytes = vec![0b0111_0000u8];
    let mut c = Cursor::new(&bytes).unwrap();
    assert_eq!(Value::deserialise(&mut c, 1).unwrap(), Value::Bool(true));
}

#[test]
fn scalar_encodings_are_exact() {
    assert_eq!(Value::Ch('A').serialise().unwrap(), vec![0x00, 0x01, 0x41]);
    assert_eq!(
        Value::Ch('\u{1F600}').serialise().unwrap(),
        vec![0x00, 0x04, 0x00, 0x01, 0xF6, 0x00]
    );
    assert_eq!(
        Value::String("hé".to_string()).serialise().unwrap(),
        vec![0x20, b'h', 0xC3, 0xA9]
    );
    assert_eq!(
        Value::Binary(vec![1, 2, 3]).serialise().unwrap(),
        vec![0x40, 1, 2, 3]
    );
    assert_eq!(Value::Binary(vec![]).serialise().unwrap(), vec![0x40]);
    assert_eq!(
        Value::Int(Integer::i8(-15)).serialise().unwrap(),
        vec![0x80, 0x81, 0x0F]
    );
    assert_eq!(
        Value::Int(Integer::u32(0x0102_0304)).serialise().unwrap(),
        vec![0x80, 0x04, 1, 2, 3, 4]
    );
}

#[test]
fn values_round_trip() {
    let cases = vec![
        Value::Ch('a'),
        Value::Ch('\u{10FFFF}'),
        Value::Ch('\0'),
        Value::String(String::new()),
        Value::String("grüße, мир, 世界 🌍".to_string()),
        Value::Binary(vec![]),
        Value::Binary(vec![0, 255, 1, 254]),
        Value::Bool(true),
        Value::Bool(false),
        Value::Int(Integer::u8(0)),
        Value::Int(Integer::i128(i128::MIN)),
        Value::Int(Integer::u128(u128::MAX)),
        Value::Int(Integer::i64(-1)),
        Value::Store(Store::default()),
        Value::Store(Store::new_arr(vec![])),
    ];
    for v in cases {
        assert_eq!(round_trip(&v), v);
    }
}

#[test]
fn negative_zero_survives() {
    let z = Integer::new(sourisdb::integer::SignedState::Negative, 0);
    let v = Value::Int(z);
    assert_eq!(round_trip(&v), v);
    assert_ne!(v, Value::Int(Integer::u8(0)));
}

#[test]
fn self_delimiting_values_ignore_the_announced_length() {
    let mut bytes = Value::Int(Integer::u16(300)).serialise().unwrap();
    bytes.push(0xEE);
    let mut c = Cursor::new(&bytes).unwrap();
    assert_eq!(
        Value::deserialise(&mut c, 100).unwrap(),
        Value::Int(Integer::u16(300))
    );
    assert_eq!(c.remaining(), 1);
}

#[test]
fn value_errors() {
    let empty: Vec<u8> = vec![];
    assert!(matches!(
        Value::deserialise(&mut Cursor::new(&empty).unwrap(), 0),
        Err(ValueSerError::Empty)
    ));
    assert!(matches!(
        Value::deserialise(&mut Cursor::new(&empty).unwrap(), 1),
        Err(ValueSerError::NotEnoughBytes)
    ));
    let bad_tag = vec![0b1100_0000u8];
    assert!(matches!(
        Value::deserialise(&mut Cursor::new(&bad_tag).unwrap(), 1),
        Err(ValueSerError::InvalidType(0b110))
    ));
    let bad_tag = vec![0b1110_0000u8];
    assert!(matches!(
        Value::deserialise(&mut Cursor::new(&bad_tag).unwrap(), 1),
        Err(ValueSerError::InvalidType(0b111))
    ));
    let short_string = vec![0x20u8, b'a'];
    assert!(matches!(
        Value::deserialise(&mut Cursor::new(&short_string).unwrap(), 3),
        Err(ValueSerError::NotEnoughBytes)
    ));
    let not_utf8 = vec![0x20u8, 0xFF, 0xFE];
    assert!(matches!(
        Value::deserialise(&mut Cursor::new(&not_utf8).unwrap(), 3),
        Err(ValueSerError::NonUTF8String(_))
    ));
    let bool_with_content = vec![0x61u8, 0x00];
    assert!(matches!(
        Value::deserialise(&mut Cursor::new(&bool_with_content).unwrap(), 2),
        Err(ValueSerError::UnexpectedContent)
    ));
    let surrogate = vec![0x00u8, 0x02, 0xD8, 0x00];
    assert!(matches!(
        Value::deserialise(&mut Cursor::new(&surrogate).unwrap(), 4),
        Err(ValueSerError::InvalidCharacter)
    ));
    let negative_char = vec![0x00u8, 0x81, 0x41];
    assert!(matches!(
        Value::deserialise(&mut Cursor::new(&negative_char).unwrap(), 3),
        Err(ValueSerError::IntegerSerFailure(IntegerSerError::OutOfRange))
    ));
    let cut_int = vec![0x80u8, 0x02, 0x01];
    assert!(matches!(
        Value::deserialise(&mut Cursor::new(&cut_int).unwrap(), 3),
        Err(ValueSerError::IntegerSerFailure(
            IntegerSerError::NotEnoughBytes
        ))
    ));
    let cut_store = vec![0xA0u8, b'D', b'A'];
    assert!(matches!(
        Value::deserialise(&mut Cursor::new(&cut_store).unwrap(), 3),
        Err(ValueSerError::Store(_))
    ));
}

#[test]
fn decoder_states_step_by_step() {
    let mut tmp = Vec::new();
    let found = DeserState::Start.step(0x20, &mut tmp).unwrap();
    assert!(matches!(found, DeserState::FoundType(ValueTy::String, 0x20)));
    assert!(tmp.is_empty());
    let content = found.step(b'o', &mut tmp).unwrap();
    assert!(matches!(content, DeserState::FindingContent(ValueTy::String)));
    let content = content.step(b'k', &mut tmp).unwrap();
    assert_eq!(tmp, b"ok");
    assert_eq!(content.finish(tmp).unwrap(), Value::String("ok".to_string()));

    assert!(matches!(
        DeserState::Start.step(0xFF, &mut Vec::new()),
        Err(ValueSerError::InvalidType(7))
    ));
    assert!(matches!(
        DeserState::Start.finish(Vec::new()),
        Err(ValueSerError::Empty)
    ));
    assert_eq!(
        DeserState::FoundType(ValueTy::Bool, 0x61).finish(Vec::new()).unwrap(),
        Value::Bool(true)
    );
    assert_eq!(
        DeserState::FoundType(ValueTy::Binary, 0x40).finish(Vec::new()).unwrap(),
        Value::Binary(vec![])
    );
    assert!(matches!(
        DeserState::FindingContent(ValueTy::Bool).finish(vec![0]),
        Err(ValueSerError::UnexpectedContent)
    ));
}

#[test]
fn values_know_whether_they_respect_the_reserved_key() {
    assert!(Value::Bool(true).is_valid());
    assert!(Value::Store(Store::new()).is_valid());
    let mut s = Store::new();
    s.insert("Array".to_string(), Value::Bool(true));
    assert!(Value::Store(s.clone()).is_valid());
    if let Some(slot) = s.get_mut(&"Array".to_string()) {
        *slot = Value::Bool(true);
    }
    assert!(!Value::Store(s).is_valid());
}

#[test]
fn a_length_of_zero_leaves_the_cursor_where_it_was() {
    let bytes = vec![0x61u8, 0x61];
    let mut c = Cursor::new(&bytes).unwrap();
    assert_eq!(c.next(), Some(0x61));
    assert!(matches!(Value::deserialise(&mut c, 0), Err(ValueSerError::Empty)));
    assert_eq!(c.position(), 1);
    assert_eq!(Value::deserialise(&mut c, 1).unwrap(), Value::Bool(true));
    assert_eq!(c.position(), 2);
}

#[test]
fn values_without_an_announced_length() {
    let mut bytes = Vec::new();
    let values = vec![
        Value::Bool(true),
        Value::Ch('x'),
        Value::Int(Integer::i32(-70_000)),
        Value::Store(Store::new_arr(vec![Value::Bool(false)])),
        Value::Bool(false),
    ];
    for v in &values {
        bytes.extend(v.serialise().unwrap());
    }
    let mut c = Cursor::new(&bytes).unwrap();
    for v in &values {
        assert_eq!(&Value::deser(&mut c).unwrap(), v);
    }
    assert_eq!(c.remaining(), 0);
    assert!(matches!(Value::deser(&mut c), Err(ValueSerError::NotEnoughBytes)));

    for text in [Value::String("s".to_string()), Value::Binary(vec![1])] {
        let bytes = text.serialise().unwrap();
        let mut c = Cursor::new(&bytes).unwrap();
        assert!(matches!(Value::deser(&mut c), Err(ValueSerError::UnknownLength)));
        assert_eq!(c.position(), 0);
    }
    let bad = vec![0xC0u8];
    assert!(matches!(
        Value::deser(&mut Cursor::new(&bad).unwrap()),
        Err(ValueSerError::InvalidType(6))
    ));
}
