use jqsh::value::{Value, HashableValue, Object, HashableObject};
use jqsh::rational::Rational;

fn num(n: i64) -> HashableValue {
    HashableValue::Number(Rational::from_int(n))
}

fn meta_with(key: &str, v: Value) -> Object {
    let mut m = Object::new();
    m.insert(HashableValue::String(key.to_string()), v);
    m
}

#[test]
fn exception_equality_ignores_metadata() {
    let e1 = HashableValue::Exception("boom".to_string(), Object::new());
    let e2 = HashableValue::Exception("boom".to_string(), meta_with("detail", Value::Null));
    assert!(e1 == e2);
    assert_eq!(e1.hash_code(), e2.hash_code());

    let e3 = HashableValue::Exception("other".to_string(), Object::new());
    assert!(e1 != e3);
}

#[test]
fn widening_roundtrip_move_and_ref_agree() {
    let h = HashableValue::Array(vec![
        HashableValue::Boolean(false),
        HashableValue::Null,
        num(7),
        HashableValue::String("hi".to_string()),
    ]);
    let by_ref = Value::from_hashable_ref(&h);
    let by_move = Value::from_hashable(h.clone());
    assert_eq!(by_move.to_display_string(), by_ref.to_display_string());
    assert_eq!(by_ref.to_display_string(), "[false, null, 7, \"hi\"]");
}

#[test]
fn array_equality_is_pointwise_and_order_sensitive() {
    let a = HashableValue::Array(vec![num(1), num(2)]);
    let b = HashableValue::Array(vec![num(1), num(2)]);
    let c = HashableValue::Array(vec![num(2), num(1)]);
    let d = HashableValue::Array(vec![num(1)]);
    assert!(a == b);
    assert!(a != c);
    assert!(a != d);
    assert_eq!(a.hash_code(), b.hash_code());
}

#[test]
fn object_equality_ignores_insertion_order() {
    let mut o1 = HashableObject::new();
    o1.push(HashableValue::String("a".to_string()), num(1));
    o1.push(HashableValue::String("b".to_string()), num(2));
    let mut o2 = HashableObject::new();
    o2.push(HashableValue::String("b".to_string()), num(2));
    o2.push(HashableValue::String("a".to_string()), num(1));
    let v1 = HashableValue::Object(o1);
    let v2 = HashableValue::Object(o2);
    assert!(v1 == v2);
    assert_eq!(v1.hash_code(), v2.hash_code());

    let mut o3 = HashableObject::new();
    o3.push(HashableValue::String("a".to_string()), num(1));
    o3.push(HashableValue::String("b".to_string()), num(3));
    assert!(v1 != HashableValue::Object(o3));
}

#[test]
fn object_insert_replaces_existing_key_in_place() {
    let mut o = Object::new();
    o.insert(HashableValue::String("k".to_string()), Value::Null);
    o.insert(HashableValue::String("x".to_string()), Value::Boolean(true));
    o.insert(HashableValue::String("k".to_string()), Value::Boolean(false));
    assert_eq!(o.len(), 2);
    match o.get(&HashableValue::String("k".to_string())) {
        Some(Value::Boolean(b)) => assert!(!*b),
        _ => panic!("expected the replaced value"),
    }
    assert!(o.get(&HashableValue::String("missing".to_string())).is_none());
}

#[test]
fn exception_keys_match_by_name_in_objects() {
    let k1 = HashableValue::Exception("e".to_string(), Object::new());
    let k2 = HashableValue::Exception("e".to_string(), meta_with("ignored", Value::Null));
    let mut o = Object::new();
    o.insert(k1, Value::Boolean(true));
    o.insert(k2, Value::Boolean(false));
    assert_eq!(o.len(), 1);
}

#[test]
fn string_hashes_depend_on_content() {
    let a = HashableValue::String("a".to_string());
    let b = HashableValue::String("b".to_string());
    assert_ne!(a.hash_code(), b.hash_code());
    assert_eq!(a.hash_code(), HashableValue::String("a".to_string()).hash_code());
}

#[test]
fn number_equality_is_exact() {
    let half1 = HashableValue::Number(Rational::new(1, 2).unwrap());
    let half2 = HashableValue::Number(Rational::new(2, 4).unwrap());
    let third = HashableValue::Number(Rational::new(1, 3).unwrap());
    assert!(half1 == half2);
    assert!(half1 != third);
    assert_eq!(half1.hash_code(), half2.hash_code());
}
