//! Errors of the storage engine.

use crate::text::cat;
use vstd::prelude::*;
use vstd::string::*;

verus! {

/// What kind of input/output failure was reported.
#[derive(Debug, Clone, Copy, PartialEq, Eq, Structural)]
pub enum IoErrorKind {
    /// The file does not exist.
    NotFound,
    /// The file ended before the requested bytes.
    UnexpectedEof,
    /// The operation was interrupted and may be tried again.
    Interrupted,
    /// Every other kind.
    Other,
}

/// An input/output failure, as reported by the file layer.
#[derive(Debug, Clone)]
pub struct IoError {
    /// The kind of failure.
    pub kind: IoErrorKind,
    /// The text of the failure.
    pub message: String,
}

/// Errors of the storage engine.
#[derive(Debug, Clone)]
pub enum LsmError {
    /// An input/output failure.
    Io(IoError),
    /// Stored data is damaged.
    Corruption(String),
    /// Stored data cannot be decoded, or a value cannot be encoded.
    Serialization(String),
    /// The engine is in a state in which it cannot serve the request.
    Internal(String),
    /// The write-ahead log cannot be recovered.
    Wal(String),
    /// A bloom filter is unusable.
    BloomFilter(String),
}

/// The result of an engine operation.
pub type Result<T> = core::result::Result<T, LsmError>;

impl LsmError {
    /// It is an input/output error of this kind with this text.
    pub open spec fn is_io(self, kind: IoErrorKind, text: Seq<char>) -> bool {
        self matches LsmError::Io(e) && e.kind == kind && e.message@ == text
    }

    /// It is a corruption error with this text.
    pub open spec fn is_corruption(self, text: Seq<char>) -> bool {
        self matches LsmError::Corruption(m) && m@ == text
    }

    /// It is a serialization error with this text.
    pub open spec fn is_serialization(self, text: Seq<char>) -> bool {
        self matches LsmError::Serialization(m) && m@ == text
    }

    /// It is an internal error with this text.
    pub open spec fn is_internal(self, text: Seq<char>) -> bool {
        self matches LsmError::Internal(m) && m@ == text
    }

    /// It is a log error with this text.
    pub open spec fn is_wal(self, text: Seq<char>) -> bool {
        self matches LsmError::Wal(m) && m@ == text
    }

    /// The heading under which the error is shown.
    pub open spec fn heading(self) -> Seq<char> {
        match self {
            LsmError::Io(_) => "I/O error: "@,
            LsmError::Corruption(_) => "Data corruption: "@,
            LsmError::Serialization(_) => "Serialization error: "@,
            LsmError::Internal(_) => "Internal error: "@,
            LsmError::Wal(_) => "WAL error: "@,
            LsmError::BloomFilter(_) => "Index error: "@,
        }
    }

    /// The text of the failure itself.
    pub open spec fn detail(self) -> Seq<char> {
        match self {
            LsmError::Io(e) => e.message@,
            LsmError::Corruption(m) => m@,
            LsmError::Serialization(m) => m@,
            LsmError::Internal(m) => m@,
            LsmError::Wal(m) => m@,
            LsmError::BloomFilter(m) => m@,
        }
    }

    /// The message shown to users: the heading and the text of the failure.
    pub fn user_message(&self) -> (r: String)
        ensures
            r@ == self.heading() + self.detail(),
    {
        match self {
            LsmError::Io(e) => cat("I/O error: ", e.message.as_str()),
            LsmError::Corruption(m) => cat("Data corruption: ", m.as_str()),
            LsmError::Serialization(m) => cat("Serialization error: ", m.as_str()),
            LsmError::Internal(m) => cat("Internal error: ", m.as_str()),
            LsmError::Wal(m) => cat("WAL error: ", m.as_str()),
            LsmError::BloomFilter(m) => cat("Index error: ", m.as_str()),
        }
    }
}

} // verus!
