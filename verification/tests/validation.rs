//! Validation of keys, values and data.

use f4kvs_lsm::json::JsonValue;
use f4kvs_lsm::kv_error::F4KvsError;
use f4kvs_lsm::validation::{
    ConfigValidator, IntegrityValidator, KeyValidationConfig, ValidationConfig, ValidationManager,
    StorageConfigValidator, ValueValidationConfig,
};
use f4kvs_lsm::value::Value;

fn object(key: &str, value: JsonValue) -> JsonValue {
    JsonValue::Object(vec![(key.to_string(), value)])
}

#[test]
fn test_key_validation() {
    let config = KeyValidationConfig::default();
    let manager = ValidationManager::new(config, ValueValidationConfig::default());

    assert!(manager.validate_key("valid_key").is_ok());

    assert!(manager.validate_key("").is_err());

    let long_key = "a".repeat(2000);
    assert!(manager.validate_key(&long_key).is_err());
}

#[test]
fn test_value_validation() {
    let config = ValueValidationConfig::default();
    let manager = ValidationManager::new(KeyValidationConfig::default(), config);

    assert!(manager
        .validate_value(&Value::String("test".to_string()))
        .is_ok());

    assert!(manager.validate_value(&Value::Null).is_ok());

    let large_string = "a".repeat(2 * 1024 * 1024);
    assert!(manager
        .validate_value(&Value::String(large_string))
        .is_err());
}

#[test]
fn test_integrity_validator() {
    let data = b"test data";
    let checksum = IntegrityValidator::calculate_checksum(data);

    assert!(IntegrityValidator::validate_checksum(data, checksum).is_ok());

    assert!(IntegrityValidator::validate_checksum(data, checksum + 1).is_err());

    assert!(IntegrityValidator::validate_size(data, data.len()).is_ok());
    assert!(IntegrityValidator::validate_size(data, data.len() + 1).is_err());

    assert!(IntegrityValidator::validate_not_empty(data).is_ok());
    assert!(IntegrityValidator::validate_not_empty(b"").is_err());
}

#[test]
fn test_json_depth_validation() {
    let config = ValueValidationConfig {
        max_json_depth: 3,
        ..Default::default()
    };
    let manager = ValidationManager::new(KeyValidationConfig::default(), config);

    let shallow_json = object("key", JsonValue::String("value".to_string()));
    let value = Value::Json(shallow_json);
    assert!(manager.validate_value(&value).is_ok());

    let deep_json = object(
        "level1",
        object(
            "level2",
            object("level3", object("level4", JsonValue::String("value".to_string()))),
        ),
    );
    let value = Value::Json(deep_json);
    assert!(manager.validate_value(&value).is_err());
}

fn key_fault(config: KeyValidationConfig, key: &str) -> String {
    let manager = ValidationManager::new(config, ValueValidationConfig::default());
    manager.validate_key(key).unwrap_err().to_text()
}

#[test]
fn keys_are_refused_for_a_reason() {
    let config = KeyValidationConfig::default;
    assert_eq!(key_fault(config(), ""), "Invalid key: key cannot be empty");
    assert!(key_fault(KeyValidationConfig { min_length: 3, ..config() }, "ab").contains("3"));
    assert!(key_fault(KeyValidationConfig { max_length: 3, ..config() }, "abcd").contains("3"));
    assert_eq!(
        key_fault(KeyValidationConfig { ascii_only: true, ..config() }, "é"),
        "Invalid key: key must be ASCII"
    );
    assert_eq!(
        key_fault(KeyValidationConfig { allow_control_chars: false, ..config() }, "a\tb"),
        "Invalid key: key contains control characters"
    );
    let patterned = KeyValidationConfig {
        patterns: vec!["user:*".to_string(), "*:tmp".to_string(), "exact".to_string()],
        ..config()
    };
    let manager = ValidationManager::new(patterned, ValueValidationConfig::default());
    for key in ["user:1", "x:tmp", "exact"] {
        let _ = manager.validate_key(key);
    }
    assert!(manager.validate_key("other").is_err());
}

#[test]
fn values_are_refused_for_a_reason() {
    let manager = ValidationManager::new(
        KeyValidationConfig::default(),
        ValueValidationConfig {
            allow_null: false,
            allow_empty_strings: false,
            max_string_length: 4,
            max_size: 8,
            ..Default::default()
        },
    );
    assert_eq!(
        manager.validate_value(&Value::Null).unwrap_err().to_text(),
        "Invalid value: null values are not allowed"
    );
    assert_eq!(
        manager.validate_value(&Value::String(String::new())).unwrap_err().to_text(),
        "Invalid value: empty strings are not allowed"
    );
    assert!(manager.validate_value(&Value::String("abcde".to_string())).is_err());
    assert!(manager.validate_value(&Value::Bytes(vec![0; 100])).is_err());
    assert!(manager.validate_value(&Value::Int64(1)).is_ok());
    assert!(manager.validate_key_value("k", &Value::Int64(1)).is_ok());
    assert!(manager.validate_key_value("", &Value::Int64(1)).is_err());
    assert!(manager.is_enabled());
    let off = ValidationManager::from_config(ValidationConfig {
        enabled: false,
        ..Default::default()
    });
    assert!(off.validate_key_value("", &Value::Null).is_ok());
}

#[test]
fn integrity_errors_say_what_was_expected() {
    assert_eq!(
        IntegrityValidator::validate_not_empty(b"").unwrap_err().to_text(),
        "Storage error: Data cannot be empty"
    );
    let text = IntegrityValidator::validate_size(b"abc", 4).unwrap_err().to_text();
    assert!(text.contains("4") && text.contains("3"));
}

struct Setting {
    sound: bool,
}

impl StorageConfigValidator for Setting {
    fn validate(&self) -> Result<(), F4KvsError> {
        if self.sound {
            Ok(())
        } else {
            Err(F4KvsError::storage("unsound"))
        }
    }
}

#[test]
fn configurations_judge_themselves() {
    assert!(ConfigValidator::validate_storage_config(&Setting { sound: true }).is_ok());
    assert!(matches!(
        ConfigValidator::validate_storage_config(&Setting { sound: false }),
        Err(F4KvsError::Storage { message }) if message == "unsound"
    ));
}

#[test]
fn patterns_are_matched() {
    let m = ValidationManager::new(KeyValidationConfig::default(), ValueValidationConfig::default());
    assert!(m.matches_pattern("abc", "*"));
    assert!(m.matches_pattern("", "*"));
    assert!(m.matches_pattern("abc", "**"));
    assert!(m.matches_pattern("abc", "*b*"));
    assert!(!m.matches_pattern("abc", "*d*"));
    assert!(m.matches_pattern("abc", "*bc"));
    assert!(!m.matches_pattern("abc", "*ab"));
    assert!(m.matches_pattern("abc", "ab*"));
    assert!(!m.matches_pattern("abc", "bc*"));
    assert!(m.matches_pattern("abc", "abc"));
    assert!(!m.matches_pattern("abc", ""));

    let anything = KeyValidationConfig {
        patterns: vec!["*".to_string()],
        ..KeyValidationConfig::default()
    };
    let m = ValidationManager::new(anything, ValueValidationConfig::default());
    assert!(m.validate_key("any key").is_ok());
}
