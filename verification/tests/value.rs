//! Values.

use f4kvs_lsm::json::{JsonNumber, JsonValue};
use f4kvs_lsm::kv_error::F4KvsError;
use f4kvs_lsm::value::{estimate_array, estimate_object, PartMemory, Value};

fn object(key: &str, value: JsonValue) -> JsonValue {
    JsonValue::Object(vec![(key.to_string(), value)])
}

fn text(value: &str) -> JsonValue {
    JsonValue::String(value.to_string())
}

fn number(value: u64) -> JsonValue {
    JsonValue::Number(JsonNumber::PosInt(value))
}

fn float(value: f64) -> Value {
    Value::Float64(value.to_bits())
}

#[test]
fn test_value_deserialize_from_json_object() {
    let text_of_it = r#"{"array":[1,2,3],"key":"value","number":42}"#;
    let parsed = Value::from_json_string(text_of_it).expect("parse failed");
    assert_eq!(
        parsed,
        Value::Json(JsonValue::Object(vec![
            ("array".to_string(), JsonValue::Array(vec![number(1), number(2), number(3)])),
            ("key".to_string(), text("value")),
            ("number".to_string(), number(42)),
        ]))
    );
}

#[test]
fn test_value_types() {
    assert_eq!(Value::String("test".to_string()).kind_name(), "String");
    assert_eq!(Value::Int64(42).kind_name(), "Int64");
    assert_eq!(Value::UInt64(42).kind_name(), "UInt64");
    assert_eq!(float(std::f64::consts::PI).kind_name(), "Float64");
    assert_eq!(Value::Bool(true).kind_name(), "Bool");
    assert_eq!(Value::Bytes(vec![1, 2, 3]).kind_name(), "Bytes");
    assert_eq!(Value::Json(JsonValue::Null).kind_name(), "Json");
    assert_eq!(Value::Null.kind_name(), "Null");
    assert!(Value::Null.is_null());
    assert!(!Value::String("test".to_string()).is_null());
}

#[test]
fn test_conversions() {
    let v: Value = "test".into();
    assert_eq!(v, Value::String("test".to_string()));

    let v: Value = "test".to_string().into();
    assert_eq!(v, Value::String("test".to_string()));

    let v: Value = 42i64.into();
    assert_eq!(v, Value::Int64(42));

    let v: Value = 42u64.into();
    assert_eq!(v, Value::UInt64(42));

    let v: Value = float(std::f64::consts::PI);
    assert_eq!(v, Value::Float64(std::f64::consts::PI.to_bits()));

    let v: Value = true.into();
    assert_eq!(v, Value::Bool(true));

    let v: Value = false.into();
    assert_eq!(v, Value::Bool(false));

    let v: Value = vec![1, 2, 3].into();
    assert_eq!(v, Value::Bytes(vec![1, 2, 3]));

    let json_val = object("key", text("value"));
    let v: Value = json_val.clone().into();
    assert_eq!(v, Value::Json(json_val));
}

#[test]
fn test_json_serialization() {
    let test_cases = vec![
        Value::String("test".to_string()),
        Value::Int64(-42),
        Value::UInt64(42),
        float(std::f64::consts::PI),
        Value::Bool(true),
        Value::Bytes(vec![1, 2, 3]),
        Value::Json(object("nested", object("key", text("value")))),
        Value::Null,
    ];

    for value in test_cases {
        let json = value.to_json_string().unwrap();
        let deserialized = Value::from_json_string(&json).unwrap();
        assert_eq!(value, deserialized);
    }
}

#[test]
fn test_serialized_size() {
    assert_eq!(Value::String("test".to_string()).serialized_size(), 4);
    assert_eq!(Value::Int64(42).serialized_size(), 8);
    assert_eq!(Value::UInt64(42).serialized_size(), 8);
    assert_eq!(float(std::f64::consts::PI).serialized_size(), 8);
    assert_eq!(Value::Bool(true).serialized_size(), 1);
    assert_eq!(Value::Bytes(vec![1, 2, 3]).serialized_size(), 3);
    assert_eq!(Value::Null.serialized_size(), 0);
}

#[test]
fn test_memory_size() {
    let string_val = Value::String("test".to_string());
    assert!(string_val.memory_size() > string_val.serialized_size());

    let bytes_val = Value::Bytes(vec![1, 2, 3]);
    assert!(bytes_val.memory_size() > bytes_val.serialized_size());

    let json_val = Value::Json(object("key", text("value")));
    assert!(json_val.memory_size() > json_val.serialized_size());

    assert_eq!(Value::Int64(42).memory_size(), std::mem::size_of::<i64>());
    assert_eq!(Value::UInt64(42).memory_size(), std::mem::size_of::<u64>());
    assert_eq!(
        float(std::f64::consts::PI).memory_size(),
        std::mem::size_of::<f64>()
    );
    assert_eq!(Value::Bool(true).memory_size(), std::mem::size_of::<bool>());
    assert_eq!(Value::Null.memory_size(), 0);
}

#[test]
fn test_to_bytes() {
    assert_eq!(
        Value::String("test".to_string()).to_bytes(),
        b"test".to_vec()
    );
    assert_eq!(Value::Int64(42).to_bytes(), 42i64.to_le_bytes().to_vec());
    assert_eq!(Value::UInt64(42).to_bytes(), 42u64.to_le_bytes().to_vec());
    assert_eq!(
        float(std::f64::consts::PI).to_bytes(),
        std::f64::consts::PI.to_le_bytes().to_vec()
    );
    assert_eq!(Value::Bool(true).to_bytes(), vec![1]);
    assert_eq!(Value::Bool(false).to_bytes(), vec![0]);
    assert_eq!(Value::Bytes(vec![1, 2, 3]).to_bytes(), vec![1, 2, 3]);
    assert_eq!(Value::Null.to_bytes(), Vec::<u8>::new());

    let json_val = Value::Json(object("key", text("value")));
    let expected_bytes = r#"{"key":"value"}"#.as_bytes().to_vec();
    assert_eq!(json_val.to_bytes(), expected_bytes);
}

#[test]
fn test_into_bytes() {
    assert_eq!(
        Value::String("test".to_string()).into_bytes(),
        Value::String("test".to_string()).to_bytes()
    );
    assert_eq!(Value::Int64(42).into_bytes(), Value::Int64(42).to_bytes());
    assert_eq!(
        Value::Bytes(vec![1, 2, 3]).into_bytes(),
        Value::Bytes(vec![1, 2, 3]).to_bytes()
    );

    let bytes_value = Value::Bytes(vec![1, 2, 3, 4, 5]);
    let bytes = bytes_value.into_bytes();
    assert_eq!(bytes, vec![1, 2, 3, 4, 5]);
}

#[test]
fn test_value_equality() {
    assert_eq!(
        Value::String("test".to_string()),
        Value::String("test".to_string())
    );
    assert_ne!(
        Value::String("test".to_string()),
        Value::String("different".to_string())
    );

    assert_eq!(Value::Int64(42), Value::Int64(42));
    assert_ne!(Value::Int64(42), Value::Int64(43));

    assert_eq!(Value::Bool(true), Value::Bool(true));
    assert_ne!(Value::Bool(true), Value::Bool(false));

    assert_eq!(Value::Null, Value::Null);
    assert_ne!(Value::Null, Value::String("test".to_string()));
}

#[test]
fn test_value_clone() {
    let original = Value::String("test".to_string());
    let cloned = original.clone();
    assert_eq!(original, cloned);

    let json_val = Value::Json(object("key", text("value")));
    let cloned_json = json_val.clone();
    assert_eq!(json_val, cloned_json);
}

#[test]
fn test_value_debug() {
    let value = Value::String("test".to_string());
    let debug_str = format!("{:?}", value);
    assert!(debug_str.contains("String"));
    assert!(debug_str.contains("test"));
}

#[test]
fn test_json_error_handling() {
    let result = Value::from_json_string("invalid json");
    assert!(result.is_err());

    match result {
        Err(F4KvsError::Serialization { message }) => {
            assert!(!message.is_empty());
        }
        _ => panic!("Expected serialization error"),
    }
}

#[test]
fn test_large_values() {
    let large_string = "x".repeat(10000);
    let value = Value::String(large_string.clone());
    assert_eq!(value.serialized_size(), 10000);
    assert!(value.memory_size() > 10000);

    let large_bytes = vec![0u8; 10000];
    let value = Value::Bytes(large_bytes.clone());
    assert_eq!(value.serialized_size(), 10000);
    assert!(value.memory_size() > 10000);

    let json = value.to_json_string().unwrap();
    let deserialized = Value::from_json_string(&json).unwrap();
    assert_eq!(value, deserialized);
}

#[test]
fn test_edge_case_values() {
    assert_eq!(
        Value::Int64(i64::MIN).to_bytes(),
        i64::MIN.to_le_bytes().to_vec()
    );
    assert_eq!(
        Value::Int64(i64::MAX).to_bytes(),
        i64::MAX.to_le_bytes().to_vec()
    );
    assert_eq!(
        Value::UInt64(u64::MAX).to_bytes(),
        u64::MAX.to_le_bytes().to_vec()
    );
    assert_eq!(
        float(f64::NAN).to_bytes(),
        f64::NAN.to_le_bytes().to_vec()
    );
    assert_eq!(
        float(f64::INFINITY).to_bytes(),
        f64::INFINITY.to_le_bytes().to_vec()
    );

    assert_eq!(Value::String(String::new()).serialized_size(), 0);
    assert_eq!(Value::Bytes(Vec::new()).serialized_size(), 0);
    assert_eq!(Value::Json(JsonValue::Null).serialized_size(), 4);
}

#[test]
fn texts_of_values() {
    assert_eq!(Value::Bytes(vec![0, 255]).display_text(""), "00ff");
    assert_eq!(Value::Int64(-7).display_text(""), "-7");
    assert_eq!(float(1.5).display_text("1.5"), "1.5");
    assert_eq!(Value::Bool(false).display_text(""), "false");
    assert_eq!(Value::Null.display_text(""), "null");
    assert_eq!(
        Value::Json(object("k", JsonValue::Array(vec![number(1), JsonValue::Null]))).display_text(""),
        r#"{"k":[1,null]}"#
    );
}

#[test]
fn stored_forms_of_values() {
    assert_eq!(Value::Int64(-42).to_json_string().unwrap(), r#"{"Int64":-42}"#);
    assert_eq!(Value::Null.to_json_string().unwrap(), r#""Null""#);
    assert_eq!(Value::Bytes(vec![1, 2]).to_json_string().unwrap(), r#"{"Bytes":[1,2]}"#);
    assert_eq!(float(1.5).to_json_string().unwrap(), r#"{"Float64":1.5}"#);
    assert_eq!(Value::from_json_bytes(br#"{"UInt64":7}"#).unwrap(), Value::UInt64(7));
    assert_eq!(Value::from_json_bytes(b"[true]").unwrap(), Value::Json(JsonValue::Array(vec![
        JsonValue::Bool(true)
    ])));
    assert_eq!(
        Value::from_json_string("-0.5").unwrap(),
        Value::Json(JsonValue::Number(JsonNumber::Float(f64::to_bits(-0.5))))
    );
    for (text, part) in [
        (r#"{"Int64":"x"}"#, "expected number, got"),
        (r#"{"Int64":18446744073709551615}"#, "expected i64, got 18446744073709551615"),
        (r#"{"UInt64":-1}"#, "expected u64, got -1"),
        (r#"{"String":1}"#, "expected string, got 1"),
        (r#"{"Bool":1}"#, "expected bool, got 1"),
        (r#"{"Bytes":[256]}"#, "expected byte array, got 256"),
        (r#"{"Bytes":1}"#, "expected array, got 1"),
        (r#"{"Null":1}"#, "expected null, got 1"),
        (r#"{"Float64":"x"}"#, "expected number, got"),
    ] {
        match Value::from_json_string(text) {
            Err(F4KvsError::Serialization { message }) => {
                assert!(message.contains(part), "{message}");
            }
            other => panic!("{other:?}"),
        }
    }
    assert!(Value::from_json_bytes(b"{").is_err());
}

#[test]
fn written_json_is_read_back() {
    let text = "quotes \" and \\ and \u{1} and \u{e9}\u{1f600}".to_string();
    let document = JsonValue::Object(vec![
        ("a".to_string(), JsonValue::Array(vec![JsonValue::Null, JsonValue::Bool(true)])),
        ("b".to_string(), JsonValue::Number(JsonNumber::NegInt(i64::MIN))),
        (text.clone(), JsonValue::Object(Vec::new())),
    ]);
    let values = vec![
        Value::String(text),
        Value::Int64(i64::MIN),
        Value::UInt64(u64::MAX),
        Value::Bool(false),
        Value::Bytes((0..=255).collect()),
        Value::Json(document),
        Value::Null,
    ];
    for value in values {
        let json = value.to_json_string().unwrap();
        assert_eq!(Value::from_json_string(&json).unwrap(), value);
    }

    // As deep as can be read, and one level deeper.
    let mut deep = JsonValue::Null;
    for _ in 0..126 {
        deep = JsonValue::Array(vec![deep]);
    }
    let value = Value::Json(deep.clone());
    assert_eq!(Value::from_json_string(&value.to_json_string().unwrap()).unwrap(), value);
    let value = Value::Json(JsonValue::Array(vec![deep]));
    assert!(Value::from_json_string(&value.to_json_string().unwrap()).is_err());
}

#[test]
fn floats_are_equal_as_numbers() {
    assert_eq!(float(1.5), float(1.5));
    assert_ne!(float(1.5), float(-1.5));
    assert_eq!(float(0.0), float(-0.0));
    assert_ne!(float(f64::NAN), float(f64::NAN));
    assert_ne!(float(f64::NAN), float(-f64::NAN));
    assert_eq!(float(f64::INFINITY), float(f64::INFINITY));
    assert_ne!(float(f64::INFINITY), float(f64::NEG_INFINITY));
    assert_ne!(float(42.0), Value::Int64(42));

    let number = |x: f64| JsonNumber::Float(x.to_bits());
    assert_eq!(number(0.0), number(-0.0));
    assert_ne!(number(f64::NAN), number(f64::NAN));
    assert_ne!(number(1.0), JsonNumber::PosInt(1));
    let nested = |x: f64| {
        Value::Json(object("k", JsonValue::Array(vec![text("t"), JsonValue::Number(number(x))])))
    };
    assert_eq!(nested(0.0), nested(-0.0));
    assert_eq!(nested(2.5), nested(2.5));
    assert_ne!(nested(2.5), nested(2.0));
    assert_ne!(nested(f64::NAN), nested(f64::NAN));
}

#[test]
fn documents_are_equal_member_by_member() {
    let two = JsonValue::Array(vec![number(1), number(2)]);
    assert_eq!(two, JsonValue::Array(vec![number(1), number(2)]));
    assert_ne!(two, JsonValue::Array(vec![number(2), number(1)]));
    assert_ne!(two, JsonValue::Array(vec![number(1)]));
    assert_eq!(object("a", two.clone()), object("a", two.clone()));
    assert_ne!(object("a", two.clone()), object("b", two.clone()));
    assert_ne!(object("a", two), object("a", JsonValue::Null));
    assert_eq!(JsonValue::Bool(true), JsonValue::Bool(true));
    assert_ne!(JsonValue::Bool(true), JsonValue::Null);
}

#[test]
fn memory_counts_what_texts_and_arrays_can_hold() {
    let base = std::mem::size_of::<serde_json::Value>();
    let texts = std::mem::size_of::<String>();

    let mut roomy = String::with_capacity(100);
    roomy.push_str("ab");
    let held = roomy.capacity();
    assert_eq!(Value::Json(JsonValue::String(roomy)).memory_size(), base + held);
    assert_eq!(Value::String("ab".to_string()).memory_size(), 2 + texts);
    assert_eq!(Value::Json(number(1)).memory_size(), base + 8);
    assert_eq!(Value::Json(JsonValue::Null).memory_size(), base);

    let mut items = Vec::with_capacity(16);
    items.push(number(1));
    items.push(object("k", JsonValue::Null));
    items.push(JsonValue::Bool(true));
    items.push(JsonValue::String(String::with_capacity(30)));
    let room = items.capacity();
    let JsonValue::String(last) = &items[3] else { panic!("no text") };
    let held = last.capacity();
    assert!(room >= 16 && held >= 30);
    let expected = base + room * base + 8 + 64 + base + held;
    let parts =
        vec![PartMemory::Number, PartMemory::Object, PartMemory::Other, PartMemory::Text(held)];
    assert_eq!(estimate_array(room, &parts), expected);
    assert_eq!(Value::Json(JsonValue::Array(items)).memory_size(), expected);

    let key = String::with_capacity(50);
    let held = key.capacity();
    let expected = base + (texts + base) + held + 8;
    assert_eq!(estimate_object(&vec![(held, PartMemory::Number)]), expected);
    let members = JsonValue::Object(vec![(key, number(7))]);
    assert_eq!(Value::Json(members).memory_size(), expected);

    assert_eq!(estimate_array(usize::MAX, &Vec::new()), usize::MAX);
    assert_eq!(estimate_object(&vec![(usize::MAX, PartMemory::Other)]), usize::MAX);
}
