//! Validation of keys, values and stored data.

use crate::json::{self, depth_of, JsonValue};
use crate::kv_error::F4KvsError;
use crate::text::{self, cat, chars_of, is_part_at, push_dec, same_text};
use crate::value::{self, Value, ValueView};
use vstd::prelude::*;
use vstd::string::*;
use vstd::utf8::*;

verus! {

/// What keys are accepted.
#[derive(Debug, Clone)]
pub struct KeyValidationConfig {
    /// Largest length in bytes.
    pub max_length: usize,
    /// Smallest length in bytes.
    pub min_length: usize,
    /// Whether the empty key is accepted.
    pub allow_empty: bool,
    /// Whether only ASCII keys are accepted.
    pub ascii_only: bool,
    /// Whether control characters are accepted.
    pub allow_control_chars: bool,
    /// Patterns that a key has to match, all of them. A star stands for any text, at either end.
    pub patterns: Vec<String>,
}

impl Default for KeyValidationConfig {
    fn default() -> (r: Self)
        ensures
            r.max_length == 1024,
            r.min_length == 1,
            !r.allow_empty,
            !r.ascii_only,
            !r.allow_control_chars,
            r.patterns@.len() == 0,
    {
        KeyValidationConfig {
            max_length: 1024,
            min_length: 1,
            allow_empty: false,
            ascii_only: false,
            allow_control_chars: false,
            patterns: Vec::new(),
        }
    }
}

/// What values are accepted.
#[derive(Debug, Clone, Copy)]
pub struct ValueValidationConfig {
    /// Largest size in bytes.
    pub max_size: usize,
    /// Whether null is accepted.
    pub allow_null: bool,
    /// Whether the empty string is accepted.
    pub allow_empty_strings: bool,
    /// Largest length of a string in bytes.
    pub max_string_length: usize,
    /// Largest depth of a JSON document.
    pub max_json_depth: usize,
}

impl Default for ValueValidationConfig {
    fn default() -> (r: Self)
        ensures
            r.max_size == 1_048_576,
            r.allow_null,
            r.allow_empty_strings,
            r.max_string_length == 1_048_576,
            r.max_json_depth == 32,
    {
        ValueValidationConfig {
            max_size: 1_048_576,
            allow_null: true,
            allow_empty_strings: true,
            max_string_length: 1_048_576,
            max_json_depth: 32,
        }
    }
}

/// What keys and values are accepted.
#[derive(Debug, Clone)]
pub struct ValidationConfig {
    /// Whether anything is validated at all.
    pub enabled: bool,
    /// What keys are accepted.
    pub key: KeyValidationConfig,
    /// What values are accepted.
    pub value: ValueValidationConfig,
}

impl ValidationConfig {
    /// It holds the defaults.
    pub open spec fn is_default(self) -> bool {
        &&& self.enabled
        &&& self.key.max_length == 1024
        &&& self.key.min_length == 1
        &&& !self.key.allow_empty
        &&& !self.key.ascii_only
        &&& !self.key.allow_control_chars
        &&& self.key.patterns@.len() == 0
        &&& self.value.max_size == 1_048_576
        &&& self.value.allow_null
        &&& self.value.allow_empty_strings
        &&& self.value.max_string_length == 1_048_576
        &&& self.value.max_json_depth == 32
    }
}

impl Default for ValidationConfig {
    fn default() -> (r: Self)
        ensures
            r.is_default(),
    {
        ValidationConfig {
            enabled: true,
            key: KeyValidationConfig::default(),
            value: ValueValidationConfig::default(),
        }
    }
}

/// Validates keys and values.
#[derive(Debug)]
pub struct ValidationManager {
    config: ValidationConfig,
}

/// The character is a control character: one of the first 32, or from 127 up to 159.
pub open spec fn is_control(c: char) -> bool {
    let n = c as u32;
    n < 32 || 127 <= n <= 159
}

/// The key matches a pattern. A star alone asks for nothing, a star at both ends for the text
/// between them, a star in front for the end, a star behind for the beginning; without a star the
/// key is the pattern.
pub open spec fn matches(key: Seq<char>, pattern: Seq<char>) -> bool {
    let n = pattern.len() as int;
    let starts = n > 0 && pattern[0] == '*';
    let ends = n > 0 && pattern[n - 1] == '*';
    if n == 1 && starts {
        true
    } else if starts && ends {
        text::contains(key, pattern.subrange(1, n - 1))
    } else if starts {
        text::part_at(key, pattern.skip(1), key.len() - (n - 1))
    } else if ends {
        text::part_at(key, pattern.take(n - 1), 0)
    } else {
        key == pattern
    }
}

/// The message for a key whose length is out of bounds.
pub open spec fn length_text(n: nat, relation: Seq<char>, bound: nat) -> Seq<char> {
    "key length "@ + text::dec(n) + relation + text::dec(bound)
}

/// What is wrong with the key before patterns are looked at, if anything is.
pub open spec fn key_fault(config: KeyValidationConfig, key: Seq<char>) -> Option<Seq<char>> {
    let n = encode_utf8(key).len();
    if key.len() == 0 && !config.allow_empty {
        Some("key cannot be empty"@)
    } else if n < config.min_length {
        Some(length_text(n, " is less than minimum "@, config.min_length as nat))
    } else if n > config.max_length {
        Some(length_text(n, " exceeds maximum "@, config.max_length as nat))
    } else if config.ascii_only && !is_ascii_chars(key) {
        Some("key must be ASCII"@)
    } else if !config.allow_control_chars && exists|i: int|
        0 <= i < key.len() && #[trigger] is_control(key[i]) {
        Some("key contains control characters"@)
    } else {
        None
    }
}

/// Pattern `i` is the first one that the key does not match.
pub open spec fn first_mismatch(key: Seq<char>, patterns: Seq<String>, i: int) -> bool {
    &&& 0 <= i < patterns.len()
    &&& !matches(key, patterns[i]@)
    &&& forall|j: int| 0 <= j < i ==> matches(key, (#[trigger] patterns[j])@)
}

/// Whether `part` stands somewhere in `whole`.
fn contains_chars(whole: &Vec<char>, part: &Vec<char>) -> (r: bool)
    ensures
        r == text::contains(whole@, part@),
{
    if part.len() > whole.len() {
        return false;
    }
    let last: usize = whole.len() - part.len();
    let mut i: usize = 0;
    loop
        invariant
            last == whole@.len() - part@.len(),
            i <= last,
            forall|j: int| 0 <= j < i ==> !text::part_at(whole@, part@, j),
        decreases last - i,
    {
        if is_part_at(whole, part, i) {
            return true;
        }
        if i == last {
            return false;
        }
        i = i + 1;
    }
}

fn has_control(key: &str) -> (r: bool)
    ensures
        r == (exists|i: int| 0 <= i < key@.len() && #[trigger] is_control(key@[i])),
{
    let k = chars_of(key);
    let mut i: usize = 0;
    while i < k.len()
        invariant
            i <= k@.len(),
            k@ == key@,
            forall|j: int| 0 <= j < i ==> !#[trigger] is_control(key@[j]),
        decreases k@.len() - i,
    {
        let n: u32 = k[i] as u32;
        if n < 32 || (127 <= n && n <= 159) {
            assert(is_control(key@[i as int]));
            return true;
        }
        i = i + 1;
    }
    false
}

fn length_message(n: usize, relation: &str, bound: usize) -> (r: String)
    ensures
        r@ == length_text(n as nat, relation@, bound as nat),
{
    let mut m = "key length ".to_owned();
    push_dec(&mut m, n as u64);
    m.append(relation);
    push_dec(&mut m, bound as u64);
    m
}

/// The depth of a document, as far as the machine can count.
pub open spec fn told_depth(j: json::JsonView) -> nat {
    json::counted(json::document_depth(j))
}

/// The message for a document that is nested too deeply.
pub open spec fn depth_text(depth: nat, max: nat) -> Seq<char> {
    "JSON depth "@ + text::dec(depth) + " exceeds maximum "@ + text::dec(max)
}

/// What is wrong with the value, if anything is.
pub open spec fn value_fault(config: ValueValidationConfig, v: ValueView) -> Option<Seq<char>> {
    let size = value::value_size(v);
    if v is Null && !config.allow_null {
        Some("null values are not allowed"@)
    } else if size > config.max_size {
        Some(
            "value size "@ + text::dec(size) + " exceeds maximum "@ + text::dec(
                config.max_size as nat,
            ),
        )
    } else {
        match v {
            ValueView::String(s) => if s.len() == 0 && !config.allow_empty_strings {
                Some("empty strings are not allowed"@)
            } else if encode_utf8(s).len() > config.max_string_length {
                Some(
                    "string length "@ + text::dec(encode_utf8(s).len()) + " exceeds maximum "@
                        + text::dec(config.max_string_length as nat),
                )
            } else {
                None
            },
            ValueView::Json(j) => if told_depth(j) > config.max_json_depth {
                Some(
                    "JSON depth validation failed: "@ + ("Invalid value: "@ + depth_text(
                        told_depth(j),
                        config.max_json_depth as nat,
                    )),
                )
            } else {
                None
            },
            _ => None,
        }
    }
}

impl ValidationManager {
    /// What the manager validates by.
    pub closed spec fn config_of(self) -> ValidationConfig {
        self.config
    }

    /// A manager that validates by these rules.
    pub fn new(key_config: KeyValidationConfig, value_config: ValueValidationConfig) -> (r: Self)
        ensures
            r.config_of() == (ValidationConfig {
                enabled: true,
                key: key_config,
                value: value_config,
            }),
    {
        ValidationManager {
            config: ValidationConfig { enabled: true, key: key_config, value: value_config },
        }
    }

    /// A manager that validates by a configuration.
    pub fn from_config(config: ValidationConfig) -> (r: Self)
        ensures
            r.config_of() == config,
    {
        ValidationManager { config }
    }

    /// Whether anything is validated.
    pub fn is_enabled(&self) -> (r: bool)
        ensures
            r == self.config_of().enabled,
    {
        self.config.enabled
    }

    /// Whether the key matches a pattern.
    pub fn matches_pattern(&self, key: &str, pattern: &str) -> (r: bool)
        ensures
            r == matches(key@, pattern@),
    {
        let k = chars_of(key);
        let p = chars_of(pattern);
        let n: usize = p.len();
        if n == 0 {
            return same_text(key, pattern);
        }
        let starts: bool = p[0] == '*';
        let ends: bool = p[n - 1] == '*';
        if !starts && !ends {
            return same_text(key, pattern);
        }
        if n == 1 {
            return true;
        }
        let from: usize = if starts {
            1
        } else {
            0
        };
        let to: usize = if ends {
            n - 1
        } else {
            n
        };
        let mut inner: Vec<char> = Vec::new();
        let mut i: usize = from;
        while i < to
            invariant
                from <= i <= to,
                to <= p@.len(),
                inner@ == p@.subrange(from as int, i as int),
            decreases to - i,
        {
            inner.push(p[i]);
            i = i + 1;
            assert(inner@ =~= p@.subrange(from as int, i as int));
        }
        if starts && ends {
            return contains_chars(&k, &inner);
        }
        if starts {
            assert(inner@ =~= p@.skip(1));
            if inner.len() > k.len() {
                return false;
            }
            return is_part_at(&k, &inner, k.len() - inner.len());
        }
        assert(inner@ =~= p@.take(n - 1));
        is_part_at(&k, &inner, 0)
    }

    /// Accepts a key, or says what is wrong with it first.
    pub fn validate_key(&self, key: &str) -> (r: Result<(), F4KvsError>)
        ensures
            self.key_outcome(key@, r),
    {
        if !self.config.enabled {
            return Ok(());
        }
        let config = &self.config.key;
        let n: usize = key.as_bytes().len();
        if key.is_empty() && !config.allow_empty {
            return Err(F4KvsError::invalid_key("key cannot be empty"));
        }
        if n < config.min_length {
            return Err(
                F4KvsError::invalid_key(
                    length_message(n, " is less than minimum ", config.min_length).as_str(),
                ),
            );
        }
        if n > config.max_length {
            return Err(
                F4KvsError::invalid_key(
                    length_message(n, " exceeds maximum ", config.max_length).as_str(),
                ),
            );
        }
        if config.ascii_only && !key.is_ascii() {
            return Err(F4KvsError::invalid_key("key must be ASCII"));
        }
        if !config.allow_control_chars && has_control(key) {
            return Err(F4KvsError::invalid_key("key contains control characters"));
        }
        let mut i: usize = 0;
        while i < config.patterns.len()
            invariant
                i <= config.patterns@.len(),
                *config == self.config_of().key,
                self.config_of().enabled,
                key_fault(*config, key@) is None,
                forall|j: int| 0 <= j < i ==> matches(key@, (#[trigger] config.patterns@[j])@),
            decreases config.patterns@.len() - i,
        {
            let pattern = config.patterns[i].as_str();
            if !self.matches_pattern(key, pattern) {
                proof {
                    let k = choose|k: int| first_mismatch(key@, config.patterns@, k);
                    assert(first_mismatch(key@, config.patterns@, i as int));
                    mismatch_unique(key@, config.patterns@, i as int, k);
                }
                return Err(
                    F4KvsError::invalid_key(
                        cat("key does not match required pattern: ", pattern).as_str(),
                    ),
                );
            }
            i = i + 1;
        }
        Ok(())
    }

    /// What validating a key gives.
    pub open spec fn key_outcome(self, key: Seq<char>, r: Result<(), F4KvsError>) -> bool {
        let config = self.config_of().key;
        if !self.config_of().enabled {
            r is Ok
        } else {
            match key_fault(config, key) {
                Some(m) => r matches Err(e) && e.is_invalid_key(m),
                None => if exists|i: int| first_mismatch(key, config.patterns@, i) {
                    let i = choose|i: int| first_mismatch(key, config.patterns@, i);
                    r matches Err(e) && e.is_invalid_key(
                        "key does not match required pattern: "@ + config.patterns@[i]@,
                    )
                } else {
                    r is Ok
                },
            }
        }
    }

    /// What validating a value gives.
    pub open spec fn value_outcome(self, v: ValueView, r: Result<(), F4KvsError>) -> bool {
        if !self.config_of().enabled {
            r is Ok
        } else {
            match value_fault(self.config_of().value, v) {
                Some(m) => r matches Err(e) && e.is_invalid_value(m),
                None => r is Ok,
            }
        }
    }

    fn validate_json_depth(&self, j: &JsonValue) -> (r: Result<(), F4KvsError>)
        ensures
            r is Ok <==> told_depth(j@) <= self.config_of().value.max_json_depth,
            r matches Err(e) ==> e.is_invalid_value(
                depth_text(told_depth(j@), self.config_of().value.max_json_depth as nat),
            ),
    {
        let depth: usize = depth_of(j);
        if depth > self.config.value.max_json_depth {
            let mut m = "JSON depth ".to_owned();
            push_dec(&mut m, depth as u64);
            m.append(" exceeds maximum ");
            push_dec(&mut m, self.config.value.max_json_depth as u64);
            return Err(F4KvsError::invalid_value(m.as_str()));
        }
        Ok(())
    }

    /// Accepts a value, or says what is wrong with it first.
    pub fn validate_value(&self, value: &Value) -> (r: Result<(), F4KvsError>)
        ensures
            self.value_outcome(value@, r),
    {
        if !self.config.enabled {
            return Ok(());
        }
        let config = &self.config.value;
        if let Value::Null = value {
            if !config.allow_null {
                return Err(F4KvsError::invalid_value("null values are not allowed"));
            }
        }
        let size: usize = value.serialized_size();
        if size > config.max_size {
            let mut m = "value size ".to_owned();
            push_dec(&mut m, size as u64);
            m.append(" exceeds maximum ");
            push_dec(&mut m, config.max_size as u64);
            return Err(F4KvsError::invalid_value(m.as_str()));
        }
        match value {
            Value::String(s) => {
                if s.as_str().is_empty() && !config.allow_empty_strings {
                    return Err(F4KvsError::invalid_value("empty strings are not allowed"));
                }
                let n: usize = s.as_str().as_bytes().len();
                if n > config.max_string_length {
                    let mut m = "string length ".to_owned();
                    push_dec(&mut m, n as u64);
                    m.append(" exceeds maximum ");
                    push_dec(&mut m, config.max_string_length as u64);
                    return Err(F4KvsError::invalid_value(m.as_str()));
                }
                Ok(())
            },
            Value::Json(j) => match self.validate_json_depth(j) {
                Ok(_) => Ok(()),
                Err(e) => Err(
                    F4KvsError::invalid_value(
                        cat("JSON depth validation failed: ", e.to_text().as_str()).as_str(),
                    ),
                ),
            },
            _ => Ok(()),
        }
    }

    /// Accepts a key and its value, or says what is wrong first, with the key before the value.
    pub fn validate_key_value(&self, key: &str, value: &Value) -> (r: Result<(), F4KvsError>)
        ensures
            self.key_outcome(key@, Ok(())) ==> self.value_outcome(value@, r),
            !self.key_outcome(key@, Ok(())) ==> self.key_outcome(key@, r),
    {
        match self.validate_key(key) {
            Ok(_) => self.validate_value(value),
            Err(e) => Err(e),
        }
    }
}

proof fn mismatch_unique(key: Seq<char>, patterns: Seq<String>, i: int, k: int)
    requires
        first_mismatch(key, patterns, i),
        first_mismatch(key, patterns, k),
    ensures
        i == k,
{
    if i < k {
        assert(matches(key, patterns[i]@));
    } else if k < i {
        assert(matches(key, patterns[k]@));
    }
}

/// Tests of stored data.
#[derive(Debug)]
pub struct IntegrityValidator;

/// The sum of the bytes.
pub open spec fn byte_sum(data: Seq<u8>) -> nat
    decreases data.len(),
{
    if data.len() == 0 {
        0
    } else {
        byte_sum(data.drop_last()) + data.last() as nat
    }
}

/// The sum of the bytes, cut to 32 bits.
pub open spec fn sum_checksum(data: Seq<u8>) -> u32 {
    (byte_sum(data) % 0x1_0000_0000) as u32
}

impl IntegrityValidator {
    /// Accepts data with this checksum.
    pub fn validate_checksum(data: &[u8], expected_checksum: u32) -> (r: Result<(), F4KvsError>)
        ensures
            r is Ok <==> sum_checksum(data@) == expected_checksum,
            r matches Err(e) ==> e.is_storage(
                "Checksum mismatch: expected "@ + text::dec(expected_checksum as nat) + ", got "@
                    + text::dec(sum_checksum(data@) as nat),
            ),
    {
        let actual: u32 = Self::calculate_checksum(data);
        if actual != expected_checksum {
            let mut m = "Checksum mismatch: expected ".to_owned();
            push_dec(&mut m, expected_checksum as u64);
            m.append(", got ");
            push_dec(&mut m, actual as u64);
            return Err(F4KvsError::storage(m.as_str()));
        }
        Ok(())
    }

    /// The sum of the bytes, cut to 32 bits.
    pub fn calculate_checksum(data: &[u8]) -> (r: u32)
        ensures
            r == sum_checksum(data@),
    {
        let mut sum: u32 = 0;
        let mut i: usize = 0;
        assert(data@.take(0) =~= Seq::empty());
        while i < data.len()
            invariant
                i <= data@.len(),
                sum == byte_sum(data@.take(i as int)) % 0x1_0000_0000,
            decreases data@.len() - i,
        {
            proof {
                let next = data@.take(i + 1);
                assert(next.drop_last() =~= data@.take(i as int));
                assert(next.last() == data@[i as int]);
            }
            sum = sum.wrapping_add(data[i] as u32);
            i = i + 1;
        }
        assert(data@.take(i as int) =~= data@);
        sum
    }

    /// Accepts data of this size.
    pub fn validate_size(data: &[u8], expected_size: usize) -> (r: Result<(), F4KvsError>)
        ensures
            r is Ok <==> data@.len() == expected_size,
            r matches Err(e) ==> e.is_storage(
                "Size mismatch: expected "@ + text::dec(expected_size as nat) + ", got "@
                    + text::dec(data@.len()),
            ),
    {
        if data.len() != expected_size {
            let mut m = "Size mismatch: expected ".to_owned();
            push_dec(&mut m, expected_size as u64);
            m.append(", got ");
            push_dec(&mut m, data.len() as u64);
            return Err(F4KvsError::storage(m.as_str()));
        }
        Ok(())
    }

    /// Accepts data that is not empty.
    pub fn validate_not_empty(data: &[u8]) -> (r: Result<(), F4KvsError>)
        ensures
            r is Ok <==> data@.len() > 0,
            r matches Err(e) ==> e.is_storage("Data cannot be empty"@),
    {
        if data.len() == 0 {
            return Err(F4KvsError::storage("Data cannot be empty"));
        }
        Ok(())
    }
}

/// Configurations that can be validated.
pub trait StorageConfigValidator {
    /// Accepts the configuration, or says what is wrong with it.
    fn validate(&self) -> (r: Result<(), F4KvsError>);
}

/// Tests of configurations.
#[derive(Debug)]
pub struct ConfigValidator;

impl ConfigValidator {
    /// What the configuration says of itself.
    pub fn validate_storage_config<T: StorageConfigValidator>(config: &T) -> (r: Result<
        (),
        F4KvsError,
    >)
        ensures
            call_ensures(T::validate, (config,), r),
    {
        config.validate()
    }
}

} // verus!
