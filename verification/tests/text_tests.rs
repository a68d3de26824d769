use sourisdb::integer::{Integer, SignedState};
use sourisdb::render::display_bytes_as_hex_array;
use sourisdb::store::Store;
use sourisdb::text::{decimal_string, digit_str};
use sourisdb::values::Value;

#[test]
fn hex_arrays() {
    assert_eq!(display_bytes_as_hex_array(&[]), "[]");
    assert_eq!(display_bytes_as_hex_array(&[1]), "[0x1]");
    assert_eq!(display_bytes_as_hex_array(&[1, 0xAB, 0, 0x10, 0xFF]), "[0x1, 0xAB, 0x0, 0x10, 0xFF]");
    for n in 0..=255u8 {
        assert_eq!(display_bytes_as_hex_array(&[n]), format!("[{:#X}]", n));
    }
}

#[test]
fn decimals() {
    assert_eq!(decimal_string(0), "0");
    assert_eq!(decimal_string(7), "7");
    assert_eq!(decimal_string(10), "10");
    assert_eq!(decimal_string(123_456_789), "123456789");
    assert_eq!(decimal_string(u128::MAX), u128::MAX.to_string());
    assert_eq!(digit_str(11), "B");
}

#[test]
fn integers_as_text() {
    assert_eq!(Integer::i8(-15).to_text(), "-15");
    assert_eq!(Integer::u8(0).to_text(), "0");
    assert_eq!(Integer::new(SignedState::Negative, 0).to_text(), "-0");
    assert_eq!(Integer::i128(i128::MIN).to_text(), i128::MIN.to_string());
}

#[test]
fn values_as_text() {
    assert_eq!(Value::Ch('a').to_text(), "'a'");
    assert_eq!(Value::Ch('\n').to_text(), "'\\n'");
    assert_eq!(Value::String("hi \"you\"\n".to_string()).to_text(), "\"hi \\\"you\\\"\\n\"");
    assert_eq!(Value::Binary(vec![1, 255]).to_text(), "[0x1, 0xFF]");
    assert_eq!(Value::Bool(true).to_text(), "true");
    assert_eq!(Value::Bool(false).to_text(), "false");
    assert_eq!(Value::Int(Integer::i32(-42)).to_text(), "-42");
    assert_eq!(Value::Store(Store::new_arr(vec![])).to_text(), "[]\n");
}

#[test]
fn stores_as_text() {
    assert_eq!(Store::default().to_text(), "{}\n");
    assert_eq!(Store::new_arr(vec![]).to_text(), "[]\n");
    assert_eq!(
        Store::new_arr(vec![Value::Bool(true), Value::Int(Integer::u8(1))]).to_text(),
        "[true,1]\n"
    );
    let mut one = Store::default();
    one.insert("k".to_string(), Value::Ch('x'));
    assert_eq!(one.to_text(), "{k: 'x'}\n");
    let nested = Store::new_arr(vec![Value::Store(one), Value::Bool(false)]);
    assert_eq!(nested.to_text(), "[{k: 'x'}\n,false]\n");
    let mut two = Store::default();
    two.insert("a".to_string(), Value::Bool(true));
    two.insert("b".to_string(), Value::Bool(false));
    let text = two.to_text();
    assert!(text == "{a: true,b: false}\n" || text == "{b: false,a: true}\n", "{text}");
}
