//! Structural equality and copying of runtime values.

use minilua::value::{Value, bytes_dup, bytes_eq, dup_value, value_eq};

#[test]
fn scalar_equality_is_structural() {
    assert!(value_eq(&Value::Integer(3), &Value::Integer(3)));
    assert!(!value_eq(&Value::Integer(3), &Value::Integer(4)));
    assert!(value_eq(&Value::Nil, &Value::Nil));
    assert!(value_eq(&Value::Bool(true), &Value::Bool(true)));
    assert!(!value_eq(&Value::Bool(true), &Value::Bool(false)));
    assert!(!value_eq(&Value::Integer(0), &Value::Nil));
}

#[test]
fn string_equality_is_byte_for_byte() {
    assert!(value_eq(
        &Value::String(b"abc".to_vec()),
        &Value::String(b"abc".to_vec())
    ));
    assert!(!value_eq(
        &Value::String(b"abc".to_vec()),
        &Value::String(b"abd".to_vec())
    ));
    assert!(!value_eq(&Value::String(Vec::new()), &Value::String(b"a".to_vec())));
}

#[test]
fn float_equality_is_by_bit_pattern() {
    let nan1 = f64::NAN.to_bits();
    assert!(value_eq(&Value::Float(nan1), &Value::Float(nan1)));
    assert!(!value_eq(
        &Value::Float(0.0f64.to_bits()),
        &Value::Float((-0.0f64).to_bits())
    ));
}

#[test]
fn functions_and_tables_compare_by_handle() {
    assert!(value_eq(&Value::Function(0), &Value::Function(0)));
    assert!(!value_eq(&Value::Function(0), &Value::Function(1)));
    assert!(value_eq(&Value::Table(2), &Value::Table(2)));
    assert!(!value_eq(&Value::Table(2), &Value::Table(3)));
}

#[test]
fn copies_are_equal_to_their_originals() {
    let v = Value::String(b"copy me".to_vec());
    assert!(value_eq(&dup_value(&v), &v));
    let b = b"bytes".to_vec();
    assert_eq!(bytes_dup(&b), b);
    assert!(bytes_eq(&b, &b"bytes".to_vec()));
    assert!(!bytes_eq(&b, &b"byte".to_vec()));
}
