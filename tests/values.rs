use std::f64::consts::PI;
use tomlfuse::emit::get_doc_comment;
use tomlfuse::{convert_value_to_tokens, parse_document, Literal, TomlField, TomlValue, TypeDesc};

fn text(l: &Literal) -> String {
    match l {
        Literal::Str(s) => s.clone(),
        Literal::Int(i) => i.to_string(),
        Literal::Float(f) => f.clone(),
        Literal::Bool(b) => b.to_string(),
        Literal::List(items) => {
            let parts: Vec<String> = items.iter().map(text).collect();
            format!("[{}]", parts.join(", "))
        },
    }
}

#[test]
fn test_string_value_conversion() {
    let value = TomlValue::String("test".to_string());
    let (ty, val) = convert_value_to_tokens(&value);
    assert_eq!(ty, TypeDesc::Str);
    assert!(matches!(val, Literal::Str(ref s) if s == "test"));
}

#[test]
fn test_numeric_values() {
    let int = TomlValue::Integer(42);
    let (ty, val) = convert_value_to_tokens(&int);
    assert_eq!(ty, TypeDesc::I64);
    assert!(matches!(val, Literal::Int(42)));
    let float = TomlValue::Float(PI.to_string());
    let (ty, val) = convert_value_to_tokens(&float);
    assert_eq!(ty, TypeDesc::F64);
    assert!(text(&val).starts_with("3.14"));
}

#[test]
fn test_boolean_value() {
    let (ty, val) = convert_value_to_tokens(&TomlValue::Boolean(true));
    assert_eq!(ty, TypeDesc::Bool);
    assert_eq!(text(&val), "true");
    let (_, val) = convert_value_to_tokens(&TomlValue::Boolean(false));
    assert_eq!(text(&val), "false");
}

#[test]
fn test_datetime_value() {
    let parsed = parse_document("date = 2023-01-01T12:00:00Z").unwrap();
    let date_value = parsed.get("date").unwrap();
    let (ty, val) = convert_value_to_tokens(date_value);
    assert_eq!(ty, TypeDesc::Str);
    assert!(text(&val).contains("2023-01-01"));
    assert!(text(&val).contains("12:00:00"));
}

#[test]
fn test_homogeneous_array() {
    let strings = TomlValue::Array(
        vec![TomlValue::String("a".into()), TomlValue::String("b".into())],
        String::new(),
    );
    let (ty, val) = convert_value_to_tokens(&strings);
    assert_eq!(ty, TypeDesc::Slice(Box::new(TypeDesc::Str)));
    assert!(text(&val).contains("a"));
    assert!(text(&val).contains("b"));
}

#[test]
fn test_empty_array() {
    let empty = TomlValue::Array(vec![], "[]".to_string());
    let (ty, val) = convert_value_to_tokens(&empty);
    assert_eq!(ty, TypeDesc::Slice(Box::new(TypeDesc::Str)));
    assert!(matches!(val, Literal::List(ref v) if v.is_empty()));
}

#[test]
fn test_mixed_array_fallback() {
    let doc = parse_document("mixed = [\"a\", 1]").unwrap();
    let mixed = doc.get("mixed").unwrap();
    let (ty, val) = convert_value_to_tokens(mixed);
    assert_eq!(ty, TypeDesc::Str);
    let pat = format!("[String(\"{}\"), Integer({})]", "a", 1);
    assert!(text(&val).contains(&pat), "{}, should contain: {}", text(&val), pat);
}

#[test]
fn test_convert_value_to_tokens() {
    let (type_tokens, value_tokens) = convert_value_to_tokens(&TomlValue::String("test".to_string()));
    assert_eq!(type_tokens, TypeDesc::Str);
    assert_eq!(text(&value_tokens), "test");
    let (type_tokens, value_tokens) = convert_value_to_tokens(&TomlValue::Integer(42));
    assert_eq!(type_tokens, TypeDesc::I64);
    let num_val: i64 = text(&value_tokens).parse().unwrap();
    assert_eq!(num_val, 42);
    let (type_tokens, value_tokens) = convert_value_to_tokens(&TomlValue::Boolean(true));
    assert_eq!(type_tokens, TypeDesc::Bool);
    assert_eq!(text(&value_tokens), "true");
}

#[test]
fn nested_arrays_keep_element_types() {
    let doc = parse_document("grid = [[1, 2], [3]]").unwrap();
    let (ty, val) = convert_value_to_tokens(doc.get("grid").unwrap());
    assert_eq!(ty, TypeDesc::Slice(Box::new(TypeDesc::Slice(Box::new(TypeDesc::I64)))));
    assert_eq!(text(&val), "[[1, 2], [3]]");
}

#[test]
fn test_get_doc_comment_empty() {
    let value = TomlValue::String(String::new());
    let field = TomlField::new("", "", &value, None);
    assert!(get_doc_comment(&field).is_none());
}

#[test]
fn test_get_doc_comment_with_escaping() {
    let value = TomlValue::String(String::new());
    let field = TomlField::new("", "", &value, None).with_comment("with `code` and 'quotes'");
    let doc = get_doc_comment(&field).unwrap();
    assert!(doc.contains("with"));
    assert!(doc.contains("code"));
    assert!(doc.contains("quotes"));
}
