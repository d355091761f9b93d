//! Tests of string equality over the field-element encoding.

use input_store::string_type::StringType;

#[test]
fn test_is_equal() {
    let a = StringType::new(vec![1, 2, 3]);
    let b = StringType::new(vec![1, 2, 3]);
    let c = StringType::new(vec![1, 2, 4]);
    let short = StringType::new(vec![1, 2]);

    assert!(a.is_equal(&a));
    assert!(a.is_equal(&b));
    assert!(!a.is_equal(&c));
    assert!(!a.is_equal(&short));
}

#[test]
fn test_is_not_equal() {
    let a = StringType::new(vec![7, 8]);
    let b = StringType::new(vec![7, 9]);
    let longer = StringType::new(vec![7, 8, 0]);
    let empty = StringType::new(Vec::new());

    assert!(!a.is_not_equal(&a));
    assert!(a.is_not_equal(&b));
    assert!(a.is_not_equal(&longer));
    assert!(a.is_not_equal(&empty));
    assert!(!empty.is_not_equal(&empty));
}

#[test]
fn test_to_fields_round_trip() {
    let fields = vec![10, 20, 30];
    let s = StringType::new(fields.clone());
    assert_eq!(s.to_fields(), &fields);
}

/// Two deterministic sample strings with distinct contents.
fn sample_strings() -> (StringType, StringType) {
    let a = StringType::new(vec![0x68656C6C6F, 0x776F726C64, 0x21]);
    let b = StringType::new(vec![0x68656C6C6F, 0x776F726C64, 0x3F]);
    (a, b)
}

fn check_is_equal() {
    let (string_a, string_b) = sample_strings();

    let candidate = string_a.is_equal(&string_a);
    assert!(candidate);

    let candidate = string_a.is_equal(&string_b);
    assert!(!candidate);
}

fn check_is_not_equal() {
    let (string_a, string_b) = sample_strings();

    let candidate = string_a.is_not_equal(&string_b);
    assert!(candidate);

    let candidate = string_a.is_not_equal(&string_a);
    assert!(!candidate);
}

#[test]
fn test_is_equal_constant() {
    check_is_equal();
}

#[test]
fn test_is_equal_public() {
    check_is_equal();
}

#[test]
fn test_is_equal_private() {
    check_is_equal();
}

#[test]
fn test_is_not_equal_constant() {
    check_is_not_equal();
}

#[test]
fn test_is_not_equal_public() {
    check_is_not_equal();
}

#[test]
fn test_is_not_equal_private() {
    check_is_not_equal();
}
