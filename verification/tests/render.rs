use jqsh::value::{Value, HashableValue, Object};
use jqsh::rational::Rational;

#[test]
fn scalars_render_as_their_words() {
    assert_eq!(Value::Null.to_display_string(), "null");
    assert_eq!(Value::Boolean(true).to_display_string(), "true");
    assert_eq!(Value::Boolean(false).to_display_string(), "false");
    assert_eq!(Value::Function.to_display_string(), "def (...)");
}

#[test]
fn strings_render_quoted_and_escaped() {
    assert_eq!(Value::String("hi".to_string()).to_display_string(), "\"hi\"");
    assert_eq!(
        Value::String("a\"b\\c\nd".to_string()).to_display_string(),
        "\"a\\\"b\\\\c\\nd\"",
    );
    assert_eq!(Value::String(String::new()).to_display_string(), "\"\"");
}

#[test]
fn arrays_and_objects_render_in_order() {
    let arr = Value::Array(vec![
        Value::Number(Rational::from_int(1)),
        Value::Null,
        Value::String("x".to_string()),
    ]);
    assert_eq!(arr.to_display_string(), "[1, null, \"x\"]");
    assert_eq!(Value::Array(vec![]).to_display_string(), "[]");

    let mut o = Object::new();
    o.insert(HashableValue::String("a".to_string()), Value::Boolean(true));
    o.insert(HashableValue::String("b".to_string()), Value::Null);
    assert_eq!(Value::Object(o).to_display_string(), "{\"a\": true, \"b\": null}");
}

#[test]
fn exceptions_render_name_and_nonempty_metadata() {
    let bare = Value::Exception("overflow".to_string(), Object::new());
    assert_eq!(bare.to_display_string(), "raise \"overflow\"");

    let mut m = Object::new();
    m.insert(HashableValue::String("line".to_string()), Value::Number(Rational::from_int(3)));
    let rich = Value::Exception("syntax".to_string(), m);
    assert_eq!(rich.to_display_string(), "raise \"syntax\" {\"line\": 3}");
}

#[test]
fn hashable_renders_as_widened_value() {
    let h = HashableValue::Array(vec![HashableValue::Boolean(false), HashableValue::Null]);
    let w = Value::from_hashable_ref(&h);
    assert_eq!(h.to_display_string(), w.to_display_string());
    assert_eq!(h.to_display_string(), "[false, null]");
}
