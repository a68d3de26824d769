use sourisdb::cursor::{Cursor, MAX_LEN};
use sourisdb::integer::Integer;
use sourisdb::store::{Store, StoreError, StoreFailure, Version};
use sourisdb::values::{Value, ValueTy};

fn key(s: &str) -> String {
    s.to_string()
}

#[test]
fn keys_and_values_of_a_dict() {
    let mut s = Store::default();
    s.insert(key("a"), Value::Bool(true));
    s.insert(key("b"), Value::Ch('b'));
    let mut keys = s.keys();
    keys.sort();
    assert_eq!(keys, vec![key("a"), key("b")]);
    let values = s.values();
    assert_eq!(values.len(), 2);
    assert!(values.contains(&Value::Bool(true)));
    assert!(values.contains(&Value::Ch('b')));
    let mut entries = s.clone().into_entries();
    entries.sort_by(|x, y| x.0.cmp(&y.0));
    assert_eq!(
        entries,
        vec![(key("a"), Value::Bool(true)), (key("b"), Value::Ch('b'))]
    );
    assert_eq!(s.index(&key("a")), &Value::Bool(true));
    *s.index_mut(&key("a")) = Value::Bool(false);
    assert_eq!(s.get(&key("a")), Some(&Value::Bool(false)));
}

#[test]
fn keys_and_values_of_an_array() {
    let values: Vec<Value> = (0..12u8).map(|n| Value::Int(Integer::u8(n))).collect();
    let s = Store::new_arr(values.clone());
    let expected: Vec<String> = (0..12).map(|n: u32| n.to_string()).collect();
    assert_eq!(s.keys(), expected);
    assert_eq!(s.values(), values);
    let entries = s.into_entries();
    assert_eq!(entries.len(), 12);
    assert_eq!(entries[11], (key("11"), Value::Int(Integer::u8(11))));
    assert_eq!(entries[0].0, "0");
}

#[test]
fn clones_are_deep() {
    let mut inner = Store::default();
    inner.insert(key("x"), Value::Binary(vec![1, 2, 3]));
    let mut outer = Store::new_arr(vec![Value::Store(inner.clone())]);
    let copy = outer.clone();
    outer.push(Value::Bool(true));
    assert_eq!(copy, Store::new_arr(vec![Value::Store(inner)]));
    assert_ne!(copy, outer);
    let v = Value::String(key("s"));
    assert_eq!(v.deep_clone(), v);
}

#[test]
fn kinds_of_values() {
    assert!(matches!(Value::Ch('c').to_ty(), ValueTy::Ch));
    assert!(matches!(Value::String(key("")).to_ty(), ValueTy::String));
    assert!(matches!(Value::Binary(vec![]).to_ty(), ValueTy::Binary));
    assert!(matches!(Value::Bool(true).to_ty(), ValueTy::Bool));
    assert!(matches!(Value::Int(Integer::u8(1)).to_ty(), ValueTy::Int));
    assert!(matches!(Value::Store(Store::default()).to_ty(), ValueTy::Store));
    assert!(matches!(ValueTy::from_tag(0b1010_0000), Ok(ValueTy::Store)));
    assert!(Value::Store(Store::new_arr(vec![])).is_array());
    assert!(!Value::Store(Store::default()).is_array());
}

#[test]
fn shape_conversions() {
    assert_eq!(u8::from(Version::Dict), 1);
    assert_eq!(u8::from(Version::Array), 2);
    assert_eq!(Version::from(&Store::default()), Version::Dict);
    assert_eq!(Version::from(&Store::new_arr(vec![])), Version::Array);
    assert_eq!(Version::Dict.tag(), sourisdb::version::Version::V0_1_0);
    assert_eq!(Version::Array.tag(), sourisdb::version::Version::V0_2_0);
}

#[test]
fn whole_buffers_decode() {
    let s = Store::new_arr(vec![Value::Bool(true)]);
    let mut bytes = s.ser().unwrap();
    bytes.extend([9, 9, 9]);
    assert_eq!(Store::from_bytes(&bytes).unwrap(), s);
    assert!(matches!(Store::from_bytes(&bytes[..5]), Err(StoreError::NotEnoughBytes)));
    let failure: Result<Store, StoreFailure> = Store::from_bytes(&bytes[..12]);
    assert!(matches!(failure, Err(StoreFailure::VersionError(_))));
}

#[test]
fn too_long_a_buffer_is_refused() {
    let huge = vec![0u8; MAX_LEN + 1];
    assert!(Cursor::new(&huge).is_none());
    assert!(matches!(Store::from_bytes(&huge), Err(StoreError::FileTooLong)));
    assert!(Cursor::new(&huge[..MAX_LEN]).is_some());
    assert_eq!(MAX_LEN, i32::MAX as usize);
}
