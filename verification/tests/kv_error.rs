//! Errors of the key-value interface.

use f4kvs_lsm::kv_error::{ErrorSeverity, F4KvsError};

#[test]
fn test_error_creation() {
    let invalid_key = F4KvsError::invalid_key("too long");
    assert!(matches!(invalid_key, F4KvsError::InvalidKey { reason } if reason == "too long"));

    let invalid_value = F4KvsError::invalid_value("invalid type");
    assert!(
        matches!(invalid_value, F4KvsError::InvalidValue { reason } if reason == "invalid type")
    );

    let storage = F4KvsError::storage("disk full");
    assert!(matches!(storage, F4KvsError::Storage { message } if message == "disk full"));

    let io = F4KvsError::io("file not found");
    assert!(matches!(io, F4KvsError::Io { message } if message == "file not found"));

    let serialization = F4KvsError::serialization("invalid json");
    assert!(
        matches!(serialization, F4KvsError::Serialization { message } if message == "invalid json")
    );

    let config = F4KvsError::config("missing field");
    assert!(matches!(config, F4KvsError::Config { message } if message == "missing field"));

    let internal = F4KvsError::internal("unexpected state");
    assert!(
        matches!(internal, F4KvsError::Internal { message } if message == "unexpected state")
    );

    let encryption = F4KvsError::encryption("key not found");
    assert!(
        matches!(encryption, F4KvsError::Encryption { message } if message == "key not found")
    );

    let invalid_config = F4KvsError::invalid_configuration("invalid value");
    assert!(
        matches!(invalid_config, F4KvsError::InvalidConfiguration { message } if message == "invalid value")
    );
}

#[test]
fn test_error_variants() {
    let timeout = F4KvsError::timeout();
    assert!(matches!(timeout, F4KvsError::Timeout { .. }));

    let key_not_found = F4KvsError::KeyNotFound {
        key: "test".to_string(),
    };
    assert!(matches!(key_not_found, F4KvsError::KeyNotFound { key } if key == "test"));
}

#[test]
fn test_error_display() {
    let invalid_key = F4KvsError::invalid_key("too long");
    assert_eq!(invalid_key.to_text(), "Invalid key: too long");

    let invalid_value = F4KvsError::invalid_value("invalid type");
    assert_eq!(invalid_value.to_text(), "Invalid value: invalid type");

    let storage = F4KvsError::storage("disk full");
    assert_eq!(storage.to_text(), "Storage error: disk full");

    let io = F4KvsError::io("file not found");
    assert_eq!(io.to_text(), "I/O error: file not found");

    let serialization = F4KvsError::serialization("invalid json");
    assert_eq!(
        serialization.to_text(),
        "Serialization error: invalid json"
    );

    let timeout = F4KvsError::timeout_with_operation("get", 5000);
    assert_eq!(
        timeout.to_text(),
        "Operation 'get' timed out after 5000ms"
    );

    let key_not_found = F4KvsError::KeyNotFound {
        key: "test".to_string(),
    };
    assert_eq!(key_not_found.to_text(), "Key not found: test");

    let config = F4KvsError::config("missing field");
    assert_eq!(config.to_text(), "Configuration error: missing field");

    let internal = F4KvsError::internal("unexpected state");
    assert_eq!(internal.to_text(), "Internal error: unexpected state");

    let encryption = F4KvsError::encryption("key not found");
    assert_eq!(encryption.to_text(), "Encryption error: key not found");

    let invalid_config = F4KvsError::invalid_configuration("invalid value");
    assert_eq!(
        invalid_config.to_text(),
        "Invalid configuration: invalid value"
    );
}

#[test]
fn test_error_from_std_io_error() {
    let io_error = std::io::Error::new(std::io::ErrorKind::NotFound, "file not found");
    let f4kvs_error: F4KvsError = io_error.into();

    assert!(
        matches!(f4kvs_error, F4KvsError::Io { message } if message.contains("file not found"))
    );
}

#[test]
fn test_error_from_serde_json_error() {
    let json_error = serde_json::from_str::<serde_json::Value>("invalid json").unwrap_err();
    let f4kvs_error: F4KvsError = json_error.into();

    assert!(
        matches!(f4kvs_error, F4KvsError::Serialization { message } if !message.is_empty())
    );
}

#[test]
fn test_error_clone_and_partial_eq() {
    let error1 = F4KvsError::invalid_key("test");
    let error2 = error1.clone();
    let error3 = F4KvsError::invalid_key("test");
    let error4 = F4KvsError::invalid_key("different");

    assert_eq!(error1, error2);
    assert_eq!(error1, error3);
    assert_ne!(error1, error4);
}

#[test]
fn test_error_debug() {
    let error = F4KvsError::invalid_key("test");
    let debug_str = format!("{:?}", error);
    assert!(debug_str.contains("InvalidKey"));
    assert!(debug_str.contains("test"));
}

#[test]
fn test_result_type_alias() {
    fn success_function() -> Result<String, F4KvsError> {
        Ok("success".to_string())
    }

    fn error_function() -> Result<String, F4KvsError> {
        Err(F4KvsError::invalid_key("test"))
    }

    assert!(success_function().is_ok());
    assert!(error_function().is_err());
}

#[test]
fn test_enhanced_error_creation() {
    let invalid_key = F4KvsError::invalid_key_with_context("test-key", "too long");
    assert!(
        matches!(invalid_key, F4KvsError::InvalidKey { reason } if reason.contains("test-key"))
    );

    let invalid_value = F4KvsError::invalid_value_with_context("String", "empty value");
    assert!(
        matches!(invalid_value, F4KvsError::InvalidValue { reason } if reason.contains("String"))
    );

    let storage = F4KvsError::storage_with_operation("put", "disk full");
    assert!(matches!(storage, F4KvsError::Storage { message } if message.contains("put")));

    let io = F4KvsError::io_with_path("/path/to/file", "permission denied");
    assert!(matches!(io, F4KvsError::Io { message } if message.contains("/path/to/file")));

    let serialization = F4KvsError::serialization_with_format("JSON", "invalid syntax");
    assert!(
        matches!(serialization, F4KvsError::Serialization { message } if message.contains("JSON"))
    );

    let config = F4KvsError::config_with_field("port", "invalid value");
    assert!(matches!(config, F4KvsError::Config { message } if message.contains("port")));

    let internal = F4KvsError::internal_with_component("storage", "unexpected state");
    assert!(
        matches!(internal, F4KvsError::Internal { message } if message.contains("storage"))
    );

    let encryption = F4KvsError::encryption_with_algorithm("AES-256", "key not found");
    assert!(
        matches!(encryption, F4KvsError::Encryption { message } if message.contains("AES-256"))
    );
}

#[test]
fn test_error_severity() {
    let low_severity = F4KvsError::invalid_key("test");
    assert_eq!(low_severity.severity(), ErrorSeverity::Low);

    let medium_severity = F4KvsError::config("test");
    assert_eq!(medium_severity.severity(), ErrorSeverity::Medium);

    let high_severity = F4KvsError::storage("test");
    assert_eq!(high_severity.severity(), ErrorSeverity::High);

    let critical_severity = F4KvsError::internal("test");
    assert_eq!(critical_severity.severity(), ErrorSeverity::Critical);
}

#[test]
fn test_recovery_suggestions() {
    let invalid_key = F4KvsError::invalid_key("test");
    assert!(invalid_key.recovery_suggestion().is_some());
    assert!(invalid_key
        .recovery_suggestion()
        .unwrap()
        .contains("key format"));

    let storage = F4KvsError::storage("test");
    assert!(storage.recovery_suggestion().is_some());
    assert!(storage
        .recovery_suggestion()
        .unwrap()
        .contains("storage backend"));

    let internal = F4KvsError::internal("test");
    assert!(internal.recovery_suggestion().is_some());
    assert!(internal
        .recovery_suggestion()
        .unwrap()
        .contains("Contact support"));
}

#[test]
fn test_error_severity_ordering() {
    assert!(ErrorSeverity::Low < ErrorSeverity::Medium);
    assert!(ErrorSeverity::Medium < ErrorSeverity::High);
    assert!(ErrorSeverity::High < ErrorSeverity::Critical);
    assert_eq!(ErrorSeverity::Low, ErrorSeverity::Low);
}

#[test]
fn some_errors_are_recoverable() {
    assert!(F4KvsError::storage("full").is_recoverable());
    assert!(F4KvsError::io("gone").is_recoverable());
    assert!(!F4KvsError::invalid_key("empty").is_recoverable());
    assert!(!F4KvsError::invalid_value("empty").is_recoverable());
}
