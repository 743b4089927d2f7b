//! Errors that the storage interface reports.

use crate::text::{self, cat, cat3, push_dec};
use vstd::prelude::*;
use vstd::string::*;

verus! {

/// How severe an error is.
#[derive(Debug, Clone, Copy, PartialEq, Eq, PartialOrd, Ord, Structural)]
pub enum ErrorSeverity {
    /// Minor issues that do not affect functionality.
    Low,
    /// Issues that may affect some functionality.
    Medium,
    /// Issues that significantly impact functionality.
    High,
    /// Issues that make the system unusable.
    Critical,
}

/// Errors that the storage interface reports.
#[derive(Debug, Clone, PartialEq)]
pub enum F4KvsError {
    /// The key is not valid.
    InvalidKey {
        /// Why the key is invalid.
        reason: String,
    },
    /// The value is not valid.
    InvalidValue {
        /// Why the value is invalid.
        reason: String,
    },
    /// The storage backend failed.
    Storage {
        /// What failed.
        message: String,
    },
    /// Input or output failed.
    Io {
        /// What failed.
        message: String,
    },
    /// Data could not be encoded or decoded.
    Serialization {
        /// What failed.
        message: String,
    },
    /// The operation took too long.
    Timeout {
        /// The operation.
        operation: String,
        /// How long it was given, in milliseconds.
        timeout_ms: u64,
    },
    /// The key is not stored.
    KeyNotFound {
        /// The key.
        key: String,
    },
    /// The configuration is wrong.
    Config {
        /// What is wrong.
        message: String,
    },
    /// The engine is in a state that should not occur.
    Internal {
        /// What was found.
        message: String,
    },
    /// Encryption or decryption failed.
    Encryption {
        /// What failed.
        message: String,
    },
    /// The configuration is not valid.
    InvalidConfiguration {
        /// What is not valid.
        message: String,
    },
}

/// The result of a storage operation.
pub type Result<T> = core::result::Result<T, F4KvsError>;

/// `std::io::Error`, as the file layer hands it over.
#[verifier::external_type_specification]
#[verifier::external_body]
pub struct ExIoError(std::io::Error);

/// `serde_json::Error`, as the JSON layer hands it over.
#[verifier::external_type_specification]
#[verifier::external_body]
pub struct ExJsonError(serde_json::Error);

/// A text in quotes, with the characters escaped that need it.
pub uninterp spec fn quoted_text(t: Seq<char>) -> Seq<char>;

/// `format!` with `{:?}` of a `str`: the text in quotes depends on the text alone.
#[verifier::external_body]
fn quoted(t: &str) -> (r: String)
    ensures
        r@ == quoted_text(t@),
{
    format!("{:?}", t)
}

/// A variant with one text, as it is told for debugging.
pub open spec fn variant_text(variant: Seq<char>, field: Seq<char>, t: Seq<char>) -> Seq<char> {
    variant + " { "@ + field + ": "@ + quoted_text(t) + " }"@
}

fn variant_string(variant: &str, field: &str, t: &str) -> (r: String)
    ensures
        r@ == variant_text(variant@, field@, t@),
{
    let mut m = cat3(variant, " { ", field);
    m.append(": ");
    m.append(quoted(t).as_str());
    m.append(" }");
    m
}

impl F4KvsError {
    /// The text under which the error is told for debugging: the variant, its fields by name, and
    /// their texts in quotes.
    pub open spec fn debug_shown(self) -> Seq<char> {
        match self {
            F4KvsError::InvalidKey { reason } => variant_text("InvalidKey"@, "reason"@, reason@),
            F4KvsError::InvalidValue { reason } => variant_text(
                "InvalidValue"@,
                "reason"@,
                reason@,
            ),
            F4KvsError::Storage { message } => variant_text("Storage"@, "message"@, message@),
            F4KvsError::Io { message } => variant_text("Io"@, "message"@, message@),
            F4KvsError::Serialization { message } => variant_text(
                "Serialization"@,
                "message"@,
                message@,
            ),
            F4KvsError::Timeout { operation, timeout_ms } => "Timeout { operation: "@
                + quoted_text(operation@) + ", timeout_ms: "@ + text::dec(timeout_ms as nat)
                + " }"@,
            F4KvsError::KeyNotFound { key } => variant_text("KeyNotFound"@, "key"@, key@),
            F4KvsError::Config { message } => variant_text("Config"@, "message"@, message@),
            F4KvsError::Internal { message } => variant_text("Internal"@, "message"@, message@),
            F4KvsError::Encryption { message } => variant_text("Encryption"@, "message"@, message@),
            F4KvsError::InvalidConfiguration { message } => variant_text(
                "InvalidConfiguration"@,
                "message"@,
                message@,
            ),
        }
    }

    /// The text under which the error is told for debugging.
    pub fn debug_text(&self) -> (r: String)
        ensures
            r@ == self.debug_shown(),
    {
        match self {
            F4KvsError::InvalidKey { reason } => variant_string(
                "InvalidKey",
                "reason",
                reason.as_str(),
            ),
            F4KvsError::InvalidValue { reason } => variant_string(
                "InvalidValue",
                "reason",
                reason.as_str(),
            ),
            F4KvsError::Storage { message } => variant_string(
                "Storage",
                "message",
                message.as_str(),
            ),
            F4KvsError::Io { message } => variant_string("Io", "message", message.as_str()),
            F4KvsError::Serialization { message } => variant_string(
                "Serialization",
                "message",
                message.as_str(),
            ),
            F4KvsError::Timeout { operation, timeout_ms } => {
                let mut m = cat3(
                    "Timeout { operation: ",
                    quoted(operation.as_str()).as_str(),
                    ", timeout_ms: ",
                );
                push_dec(&mut m, *timeout_ms);
                m.append(" }");
                m
            },
            F4KvsError::KeyNotFound { key } => variant_string("KeyNotFound", "key", key.as_str()),
            F4KvsError::Config { message } => variant_string("Config", "message", message.as_str()),
            F4KvsError::Internal { message } => variant_string(
                "Internal",
                "message",
                message.as_str(),
            ),
            F4KvsError::Encryption { message } => variant_string(
                "Encryption",
                "message",
                message.as_str(),
            ),
            F4KvsError::InvalidConfiguration { message } => variant_string(
                "InvalidConfiguration",
                "message",
                message.as_str(),
            ),
        }
    }

    /// It is an invalid key error with this text.
    pub open spec fn is_invalid_key(self, text: Seq<char>) -> bool {
        self matches F4KvsError::InvalidKey { reason } && reason@ == text
    }

    /// It is an invalid value error with this text.
    pub open spec fn is_invalid_value(self, text: Seq<char>) -> bool {
        self matches F4KvsError::InvalidValue { reason } && reason@ == text
    }

    /// It is a storage error with this text.
    pub open spec fn is_storage(self, text: Seq<char>) -> bool {
        self matches F4KvsError::Storage { message } && message@ == text
    }

    /// It is an I/O error with this text.
    pub open spec fn is_io(self, text: Seq<char>) -> bool {
        self matches F4KvsError::Io { message } && message@ == text
    }

    /// It is a serialization error with this text.
    pub open spec fn is_serialization(self, text: Seq<char>) -> bool {
        self matches F4KvsError::Serialization { message } && message@ == text
    }

    /// It is a configuration error with this text.
    pub open spec fn is_config(self, text: Seq<char>) -> bool {
        self matches F4KvsError::Config { message } && message@ == text
    }

    /// It is an internal error with this text.
    pub open spec fn is_internal(self, text: Seq<char>) -> bool {
        self matches F4KvsError::Internal { message } && message@ == text
    }

    /// It is an encryption error with this text.
    pub open spec fn is_encryption(self, text: Seq<char>) -> bool {
        self matches F4KvsError::Encryption { message } && message@ == text
    }

    /// It is an invalid configuration error with this text.
    pub open spec fn is_invalid_configuration(self, text: Seq<char>) -> bool {
        self matches F4KvsError::InvalidConfiguration { message } && message@ == text
    }

    /// The text under which the error is shown.
    pub open spec fn shown(self) -> Seq<char> {
        match self {
            F4KvsError::InvalidKey { reason } => "Invalid key: "@ + reason@,
            F4KvsError::InvalidValue { reason } => "Invalid value: "@ + reason@,
            F4KvsError::Storage { message } => "Storage error: "@ + message@,
            F4KvsError::Io { message } => "I/O error: "@ + message@,
            F4KvsError::Serialization { message } => "Serialization error: "@ + message@,
            F4KvsError::Timeout { operation, timeout_ms } => "Operation '"@ + operation@
                + "' timed out after "@ + text::dec(timeout_ms as nat) + "ms"@,
            F4KvsError::KeyNotFound { key } => "Key not found: "@ + key@,
            F4KvsError::Config { message } => "Configuration error: "@ + message@,
            F4KvsError::Internal { message } => "Internal error: "@ + message@,
            F4KvsError::Encryption { message } => "Encryption error: "@ + message@,
            F4KvsError::InvalidConfiguration { message } => "Invalid configuration: "@ + message@,
        }
    }

    /// The text under which the error is shown.
    pub fn to_text(&self) -> (r: String)
        ensures
            r@ == self.shown(),
    {
        match self {
            F4KvsError::InvalidKey { reason } => cat("Invalid key: ", reason.as_str()),
            F4KvsError::InvalidValue { reason } => cat("Invalid value: ", reason.as_str()),
            F4KvsError::Storage { message } => cat("Storage error: ", message.as_str()),
            F4KvsError::Io { message } => cat("I/O error: ", message.as_str()),
            F4KvsError::Serialization { message } => cat("Serialization error: ", message.as_str()),
            F4KvsError::Timeout { operation, timeout_ms } => {
                let mut m = cat3("Operation '", operation.as_str(), "' timed out after ");
                push_dec(&mut m, *timeout_ms);
                m.append("ms");
                m
            },
            F4KvsError::KeyNotFound { key } => cat("Key not found: ", key.as_str()),
            F4KvsError::Config { message } => cat("Configuration error: ", message.as_str()),
            F4KvsError::Internal { message } => cat("Internal error: ", message.as_str()),
            F4KvsError::Encryption { message } => cat("Encryption error: ", message.as_str()),
            F4KvsError::InvalidConfiguration { message } => cat(
                "Invalid configuration: ",
                message.as_str(),
            ),
        }
    }

    /// Creates an invalid key error.
    pub fn invalid_key(reason: &str) -> (r: Self)
        ensures
            r.is_invalid_key(reason@),
    {
        F4KvsError::InvalidKey { reason: reason.to_owned() }
    }

    /// Creates an invalid value error.
    pub fn invalid_value(reason: &str) -> (r: Self)
        ensures
            r.is_invalid_value(reason@),
    {
        F4KvsError::InvalidValue { reason: reason.to_owned() }
    }

    /// Creates a storage error.
    pub fn storage(message: &str) -> (r: Self)
        ensures
            r.is_storage(message@),
    {
        F4KvsError::Storage { message: message.to_owned() }
    }

    /// Creates an I/O error.
    pub fn io(message: &str) -> (r: Self)
        ensures
            r.is_io(message@),
    {
        F4KvsError::Io { message: message.to_owned() }
    }

    /// Creates a serialization error.
    pub fn serialization(message: &str) -> (r: Self)
        ensures
            r.is_serialization(message@),
    {
        F4KvsError::Serialization { message: message.to_owned() }
    }

    /// Creates a configuration error.
    pub fn config(message: &str) -> (r: Self)
        ensures
            r.is_config(message@),
    {
        F4KvsError::Config { message: message.to_owned() }
    }

    /// Creates an internal error.
    pub fn internal(message: &str) -> (r: Self)
        ensures
            r.is_internal(message@),
    {
        F4KvsError::Internal { message: message.to_owned() }
    }

    /// Creates an encryption error.
    pub fn encryption(message: &str) -> (r: Self)
        ensures
            r.is_encryption(message@),
    {
        F4KvsError::Encryption { message: message.to_owned() }
    }

    /// Creates an invalid configuration error.
    pub fn invalid_configuration(message: &str) -> (r: Self)
        ensures
            r.is_invalid_configuration(message@),
    {
        F4KvsError::InvalidConfiguration { message: message.to_owned() }
    }

    /// Creates an invalid key error that names the key.
    pub fn invalid_key_with_context(key: &str, reason: &str) -> (r: Self)
        ensures
            r.is_invalid_key("Key '"@ + key@ + "': "@ + reason@),
    {
        let mut m = cat3("Key '", key, "': ");
        m.append(reason);
        F4KvsError::InvalidKey { reason: m }
    }

    /// Creates an invalid value error that names the value's type.
    pub fn invalid_value_with_context(value_type: &str, reason: &str) -> (r: Self)
        ensures
            r.is_invalid_value("Value type '"@ + value_type@ + "': "@ + reason@),
    {
        let mut m = cat3("Value type '", value_type, "': ");
        m.append(reason);
        F4KvsError::InvalidValue { reason: m }
    }

    /// Creates a storage error that names the operation.
    pub fn storage_with_operation(operation: &str, message: &str) -> (r: Self)
        ensures
            r.is_storage("Storage operation '"@ + operation@ + "' failed: "@ + message@),
    {
        let mut m = cat3("Storage operation '", operation, "' failed: ");
        m.append(message);
        F4KvsError::Storage { message: m }
    }

    /// Creates an I/O error that names the file.
    pub fn io_with_path(path: &str, message: &str) -> (r: Self)
        ensures
            r.is_io("I/O error for path '"@ + path@ + "': "@ + message@),
    {
        let mut m = cat3("I/O error for path '", path, "': ");
        m.append(message);
        F4KvsError::Io { message: m }
    }

    /// Creates a serialization error that names the format.
    pub fn serialization_with_format(format: &str, message: &str) -> (r: Self)
        ensures
            r.is_serialization("Serialization error for format '"@ + format@ + "': "@ + message@),
    {
        let mut m = cat3("Serialization error for format '", format, "': ");
        m.append(message);
        F4KvsError::Serialization { message: m }
    }

    /// Creates a configuration error that names the field.
    pub fn config_with_field(field: &str, message: &str) -> (r: Self)
        ensures
            r.is_config("Configuration error for field '"@ + field@ + "': "@ + message@),
    {
        let mut m = cat3("Configuration error for field '", field, "': ");
        m.append(message);
        F4KvsError::Config { message: m }
    }

    /// Creates an internal error that names the component.
    pub fn internal_with_component(component: &str, message: &str) -> (r: Self)
        ensures
            r.is_internal("Internal error in component '"@ + component@ + "': "@ + message@),
    {
        let mut m = cat3("Internal error in component '", component, "': ");
        m.append(message);
        F4KvsError::Internal { message: m }
    }

    /// Creates an encryption error that names the algorithm.
    pub fn encryption_with_algorithm(algorithm: &str, message: &str) -> (r: Self)
        ensures
            r.is_encryption("Encryption error for algorithm '"@ + algorithm@ + "': "@ + message@),
    {
        let mut m = cat3("Encryption error for algorithm '", algorithm, "': ");
        m.append(message);
        F4KvsError::Encryption { message: m }
    }

    /// Creates a timeout error that names the operation.
    pub fn timeout_with_operation(operation: &str, timeout_ms: u64) -> (r: Self)
        ensures
            r matches F4KvsError::Timeout { operation: o, timeout_ms: t } && o@ == operation@ && t
                == timeout_ms,
    {
        F4KvsError::Timeout { operation: operation.to_owned(), timeout_ms }
    }

    /// Creates a timeout error of an unknown operation.
    pub fn timeout() -> (r: Self)
        ensures
            r matches F4KvsError::Timeout { operation, timeout_ms } && operation@ == "unknown"@
                && timeout_ms == 0,
    {
        F4KvsError::Timeout { operation: "unknown".to_owned(), timeout_ms: 0 }
    }

    /// How severe the error is.
    pub open spec fn severity_spec(self) -> ErrorSeverity {
        match self {
            F4KvsError::InvalidKey { .. } => ErrorSeverity::Low,
            F4KvsError::InvalidValue { .. } => ErrorSeverity::Low,
            F4KvsError::KeyNotFound { .. } => ErrorSeverity::Low,
            F4KvsError::Config { .. } => ErrorSeverity::Medium,
            F4KvsError::InvalidConfiguration { .. } => ErrorSeverity::Medium,
            F4KvsError::Serialization { .. } => ErrorSeverity::Medium,
            F4KvsError::Internal { .. } => ErrorSeverity::Critical,
            _ => ErrorSeverity::High,
        }
    }

    /// How severe the error is.
    pub fn severity(&self) -> (r: ErrorSeverity)
        ensures
            r == self.severity_spec(),
    {
        match self {
            F4KvsError::InvalidKey { .. } => ErrorSeverity::Low,
            F4KvsError::InvalidValue { .. } => ErrorSeverity::Low,
            F4KvsError::KeyNotFound { .. } => ErrorSeverity::Low,
            F4KvsError::Config { .. } => ErrorSeverity::Medium,
            F4KvsError::InvalidConfiguration { .. } => ErrorSeverity::Medium,
            F4KvsError::Serialization { .. } => ErrorSeverity::Medium,
            F4KvsError::Encryption { .. } => ErrorSeverity::High,
            F4KvsError::Storage { .. } => ErrorSeverity::High,
            F4KvsError::Io { .. } => ErrorSeverity::High,
            F4KvsError::Timeout { .. } => ErrorSeverity::High,
            F4KvsError::Internal { .. } => ErrorSeverity::Critical,
        }
    }

    /// What to do about the error.
    pub open spec fn suggestion(self) -> Seq<char> {
        match self {
            F4KvsError::InvalidKey { .. } => "Check key format and length requirements"@,
            F4KvsError::InvalidValue { .. } => "Verify value type and content"@,
            F4KvsError::KeyNotFound { .. } => "Key may not exist or may have been deleted"@,
            F4KvsError::Config { .. } => "Check configuration file and environment variables"@,
            F4KvsError::InvalidConfiguration { .. } => "Validate configuration values and format"@,
            F4KvsError::Serialization { .. } => "Check data format and encoding"@,
            F4KvsError::Encryption { .. } => "Verify encryption keys and algorithms"@,
            F4KvsError::Storage { .. } => "Check storage backend and disk space"@,
            F4KvsError::Io { .. } => "Check file permissions and disk space"@,
            F4KvsError::Timeout { .. } => "Retry operation or increase timeout"@,
            F4KvsError::Internal { .. } => "Contact support - this should not happen"@,
        }
    }

    /// What to do about the error.
    pub fn recovery_suggestion(&self) -> (r: Option<&'static str>)
        ensures
            r matches Some(s) && s@ == self.suggestion(),
    {
        match self {
            F4KvsError::InvalidKey { .. } => Some("Check key format and length requirements"),
            F4KvsError::InvalidValue { .. } => Some("Verify value type and content"),
            F4KvsError::KeyNotFound { .. } => Some("Key may not exist or may have been deleted"),
            F4KvsError::Config { .. } => Some("Check configuration file and environment variables"),
            F4KvsError::InvalidConfiguration { .. } => Some("Validate configuration values and format"),
            F4KvsError::Serialization { .. } => Some("Check data format and encoding"),
            F4KvsError::Encryption { .. } => Some("Verify encryption keys and algorithms"),
            F4KvsError::Storage { .. } => Some("Check storage backend and disk space"),
            F4KvsError::Io { .. } => Some("Check file permissions and disk space"),
            F4KvsError::Timeout { .. } => Some("Retry operation or increase timeout"),
            F4KvsError::Internal { .. } => Some("Contact support - this should not happen"),
        }
    }

    /// Whether the same operation may succeed later.
    pub fn is_recoverable(&self) -> (r: bool)
        ensures
            r == (self is Storage || self is Io || self is Timeout),
    {
        match self {
            F4KvsError::Storage { .. } => true,
            F4KvsError::Io { .. } => true,
            F4KvsError::Timeout { .. } => true,
            _ => false,
        }
    }
}

impl vstd::std_specs::convert::FromSpecImpl<std::io::Error> for F4KvsError {
    open spec fn obeys_from_spec() -> bool {
        false
    }

    open spec fn from_spec(err: std::io::Error) -> Self {
        arbitrary()
    }
}

impl From<std::io::Error> for F4KvsError {
    /// An I/O error with the text of `err`.
    fn from(err: std::io::Error) -> (r: Self)
        ensures
            r matches F4KvsError::Io { message } && to_string_from_display_ensures::<std::io::Error>(
                &err,
                message,
            ),
    {
        F4KvsError::Io { message: err.to_string() }
    }
}

impl vstd::std_specs::convert::FromSpecImpl<serde_json::Error> for F4KvsError {
    open spec fn obeys_from_spec() -> bool {
        false
    }

    open spec fn from_spec(err: serde_json::Error) -> Self {
        arbitrary()
    }
}

impl From<serde_json::Error> for F4KvsError {
    /// A serialization error with the text of `err`.
    fn from(err: serde_json::Error) -> (r: Self)
        ensures
            r matches F4KvsError::Serialization { message } && to_string_from_display_ensures::<
                serde_json::Error,
            >(&err, message),
    {
        F4KvsError::Serialization { message: err.to_string() }
    }
}

} // verus!
