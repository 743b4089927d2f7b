//! Handling of errors: context, classification, retries and counters.

use crate::kv_error::F4KvsError;
use crate::ratio::Ratio;
use crate::text::{cat, same_text};
use vstd::arithmetic::power2::*;
use vstd::prelude::*;
use vstd::string::*;

verus! {

/// The error that is reported in place of `e` in a context: of the same kind, with the context in
/// front of its message, or an internal error where the kind has no message.
pub open spec fn put_in_context(e: F4KvsError, context: Seq<char>, r: F4KvsError) -> bool {
    let lead = context + ": "@;
    match e {
        F4KvsError::Io { message } => r.is_io(lead + message@),
        F4KvsError::Storage { message } => r.is_storage(lead + message@),
        F4KvsError::Serialization { message } => r.is_serialization(lead + message@),
        F4KvsError::Config { message } => r.is_config(lead + message@),
        F4KvsError::Internal { message } => r.is_internal(lead + message@),
        F4KvsError::Encryption { message } => r.is_encryption(lead + message@),
        F4KvsError::InvalidConfiguration { message } => r.is_invalid_configuration(lead + message@),
        _ => r.is_internal(lead + e.shown()),
    }
}

fn in_context(e: F4KvsError, context: &str) -> (r: F4KvsError)
    ensures
        put_in_context(e, context@, r),
{
    let lead = cat(context, ": ");
    match e {
        F4KvsError::Io { message } => F4KvsError::Io {
            message: cat(lead.as_str(), message.as_str()),
        },
        F4KvsError::Storage { message } => F4KvsError::Storage {
            message: cat(lead.as_str(), message.as_str()),
        },
        F4KvsError::Serialization { message } => F4KvsError::Serialization {
            message: cat(lead.as_str(), message.as_str()),
        },
        F4KvsError::Config { message } => F4KvsError::Config {
            message: cat(lead.as_str(), message.as_str()),
        },
        F4KvsError::Internal { message } => F4KvsError::Internal {
            message: cat(lead.as_str(), message.as_str()),
        },
        F4KvsError::Encryption { message } => F4KvsError::Encryption {
            message: cat(lead.as_str(), message.as_str()),
        },
        F4KvsError::InvalidConfiguration { message } => F4KvsError::InvalidConfiguration {
            message: cat(lead.as_str(), message.as_str()),
        },
        other => F4KvsError::Internal {
            message: cat(lead.as_str(), other.to_text().as_str()),
        },
    }
}

/// Adding context to what failed.
pub trait ErrorContext: Sized {
    /// `r` is what `x` is in a context.
    spec fn in_this_context(x: Self, context: Seq<char>, r: Self) -> bool;

    /// There is a failure that a context is added to.
    spec fn failed(x: Self) -> bool;

    /// With this context.
    fn with_context(self, context: &str) -> (r: Self)
        ensures
            Self::in_this_context(self, context@, r),
    ;

    /// With a context that is only made where it is needed.
    fn with_context_lazy<F: FnOnce() -> String>(self, context_fn: F) -> (r: Self)
        requires
            context_fn.requires(()),
        ensures
            Self::failed(self) ==> exists|context: String| #[trigger]
                context_fn.ensures((), context) && Self::in_this_context(self, context@, r),
            !Self::failed(self) ==> r == self,
    ;
}

impl<T> ErrorContext for Result<T, F4KvsError> {
    open spec fn in_this_context(x: Self, context: Seq<char>, r: Self) -> bool {
        match x {
            Ok(v) => r == Ok::<T, F4KvsError>(v),
            Err(e) => r matches Err(c) && put_in_context(e, context, c),
        }
    }

    open spec fn failed(x: Self) -> bool {
        x is Err
    }

    fn with_context(self, context: &str) -> (r: Self) {
        match self {
            Ok(v) => Ok(v),
            Err(e) => Err(in_context(e, context)),
        }
    }

    fn with_context_lazy<F: FnOnce() -> String>(self, context_fn: F) -> (r: Self) {
        match self {
            Ok(v) => Ok(v),
            Err(e) => {
                let context = context_fn();
                let r: Result<T, F4KvsError> = Err(in_context(e, context.as_str()));
                assert(context_fn.ensures((), context) && Self::in_this_context(self, context@, r));
                r
            },
        }
    }
}

/// What can be done about an error.
#[derive(Debug, Clone, Copy, PartialEq, Eq, Structural)]
pub enum RecoveryStrategy {
    /// Try again.
    Retry,
    /// Leave the operation out.
    Skip,
    /// Report the error.
    Fail,
    /// Do something else instead.
    Fallback,
}

/// How much an error matters to the operation.
#[derive(Debug, Clone, Copy, PartialEq, Eq, PartialOrd, Ord, Hash, Structural)]
pub enum ErrorSeverity {
    /// The operation can go on.
    Low,
    /// The operation may be affected.
    Medium,
    /// The operation should be tried again.
    High,
    /// The operation must fail.
    Critical,
}

/// How an error is dealt with.
#[derive(Debug, Clone, Copy, PartialEq, Eq, Structural)]
pub struct ErrorClassification {
    /// How much the error matters.
    pub severity: ErrorSeverity,
    /// Whether the operation can succeed after all.
    pub recoverable: bool,
    /// What is done about the error.
    pub recovery_strategy: RecoveryStrategy,
    /// Whether the error is logged.
    pub should_log: bool,
    /// Whether the error is reported to monitoring.
    pub should_report: bool,
}

/// Errors that may pass: tried again, logged and reported.
pub open spec fn transient_class() -> ErrorClassification {
    ErrorClassification {
        severity: ErrorSeverity::High,
        recoverable: true,
        recovery_strategy: RecoveryStrategy::Retry,
        should_log: true,
        should_report: true,
    }
}

/// Errors that stay: logged and reported.
pub open spec fn fatal_class() -> ErrorClassification {
    ErrorClassification {
        severity: ErrorSeverity::Critical,
        recoverable: false,
        recovery_strategy: RecoveryStrategy::Fail,
        should_log: true,
        should_report: true,
    }
}

/// Errors of the caller: logged only.
pub open spec fn caller_class() -> ErrorClassification {
    ErrorClassification {
        severity: ErrorSeverity::Medium,
        recoverable: false,
        recovery_strategy: RecoveryStrategy::Fail,
        should_log: true,
        should_report: false,
    }
}

/// Keys that are not there: left out in silence.
pub open spec fn absent_class() -> ErrorClassification {
    ErrorClassification {
        severity: ErrorSeverity::Low,
        recoverable: false,
        recovery_strategy: RecoveryStrategy::Skip,
        should_log: false,
        should_report: false,
    }
}

/// The class of an error.
pub open spec fn class_of(error: F4KvsError) -> ErrorClassification {
    match error {
        F4KvsError::InvalidKey { .. } => caller_class(),
        F4KvsError::InvalidValue { .. } => caller_class(),
        F4KvsError::Storage { .. } => transient_class(),
        F4KvsError::Io { .. } => transient_class(),
        F4KvsError::Timeout { .. } => transient_class(),
        F4KvsError::KeyNotFound { .. } => absent_class(),
        F4KvsError::Serialization { .. } => fatal_class(),
        F4KvsError::Config { .. } => fatal_class(),
        F4KvsError::Internal { .. } => fatal_class(),
        F4KvsError::Encryption { .. } => fatal_class(),
        F4KvsError::InvalidConfiguration { .. } => fatal_class(),
    }
}

impl ErrorClassification {
    /// The class of an error.
    pub fn classify(error: &F4KvsError) -> (r: Self)
        ensures
            r == class_of(*error),
    {
        match error {
            F4KvsError::InvalidKey { .. } | F4KvsError::InvalidValue { .. } => ErrorClassification {
                severity: ErrorSeverity::Medium,
                recoverable: false,
                recovery_strategy: RecoveryStrategy::Fail,
                should_log: true,
                should_report: false,
            },
            F4KvsError::Storage { .. } | F4KvsError::Io { .. } | F4KvsError::Timeout { .. } => {
                ErrorClassification {
                    severity: ErrorSeverity::High,
                    recoverable: true,
                    recovery_strategy: RecoveryStrategy::Retry,
                    should_log: true,
                    should_report: true,
                }
            },
            F4KvsError::KeyNotFound { .. } => ErrorClassification {
                severity: ErrorSeverity::Low,
                recoverable: false,
                recovery_strategy: RecoveryStrategy::Skip,
                should_log: false,
                should_report: false,
            },
            F4KvsError::Serialization { .. }
            | F4KvsError::Config { .. }
            | F4KvsError::Internal { .. }
            | F4KvsError::Encryption { .. }
            | F4KvsError::InvalidConfiguration { .. } => ErrorClassification {
                severity: ErrorSeverity::Critical,
                recoverable: false,
                recovery_strategy: RecoveryStrategy::Fail,
                should_log: true,
                should_report: true,
            },
        }
    }
}

/// An operation is tried again exactly where its error is recoverable.
pub proof fn retried_iff_recoverable(error: F4KvsError)
    ensures
        class_of(error).recoverable <==> class_of(error).recovery_strategy
            == RecoveryStrategy::Retry,
        class_of(error).should_report ==> class_of(error).should_log,
{
}

/// How errors are handled.
#[derive(Debug, Clone, Copy, PartialEq, Eq, Structural)]
pub struct ErrorHandler {
    /// How often an operation is tried again.
    pub max_retries: u32,
    /// The first delay between tries in milliseconds.
    pub retry_delay_ms: u64,
    /// Whether errors are logged.
    pub enable_logging: bool,
    /// Whether errors are reported to monitoring.
    pub enable_reporting: bool,
}

/// What handling an error calls for.
#[derive(Debug)]
pub enum Handling {
    /// The operation is tried again.
    Retry,
    /// This error is reported.
    Report(F4KvsError),
}

/// What a failed try calls for.
#[derive(Debug)]
pub enum RetryStep {
    /// The operation is tried again after so many milliseconds.
    Wait(u64),
    /// This error is reported.
    GiveUp(F4KvsError),
}

impl Default for ErrorHandler {
    fn default() -> (r: Self)
        ensures
            r == (ErrorHandler {
                max_retries: 3,
                retry_delay_ms: 100,
                enable_logging: true,
                enable_reporting: true,
            }),
    {
        ErrorHandler {
            max_retries: 3,
            retry_delay_ms: 100,
            enable_logging: true,
            enable_reporting: true,
        }
    }
}

impl ErrorHandler {
    /// A handler that logs and reports.
    pub fn new(max_retries: u32, retry_delay_ms: u64) -> (r: Self)
        ensures
            r == (ErrorHandler {
                max_retries,
                retry_delay_ms,
                enable_logging: true,
                enable_reporting: true,
            }),
    {
        ErrorHandler { max_retries, retry_delay_ms, enable_logging: true, enable_reporting: true }
    }

    /// Whether the error is logged.
    pub fn logs(&self, error: &F4KvsError) -> (r: bool)
        ensures
            r == (class_of(*error).should_log && self.enable_logging),
    {
        ErrorClassification::classify(error).should_log && self.enable_logging
    }

    /// Whether the error is reported to monitoring.
    pub fn reports(&self, error: &F4KvsError) -> (r: bool)
        ensures
            r == (class_of(*error).should_report && self.enable_reporting),
    {
        ErrorClassification::classify(error).should_report && self.enable_reporting
    }

    /// What handling an error calls for.
    pub fn handle_error(&self, error: F4KvsError) -> (r: Handling)
        ensures
            match class_of(error).recovery_strategy {
                RecoveryStrategy::Retry => r is Retry,
                RecoveryStrategy::Skip => r matches Handling::Report(e) && e.is_internal(
                    "Operation skipped due to error"@,
                ),
                RecoveryStrategy::Fallback => r matches Handling::Report(e) && e.is_internal(
                    "Fallback not implemented"@,
                ),
                RecoveryStrategy::Fail => r == Handling::Report(error),
            },
    {
        let class = ErrorClassification::classify(&error);
        match class.recovery_strategy {
            RecoveryStrategy::Retry => if class.recoverable {
                Handling::Retry
            } else {
                Handling::Report(error)
            },
            RecoveryStrategy::Skip => Handling::Report(
                F4KvsError::Internal { message: "Operation skipped due to error".to_owned() },
            ),
            RecoveryStrategy::Fallback => Handling::Report(
                F4KvsError::Internal { message: "Fallback not implemented".to_owned() },
            ),
            RecoveryStrategy::Fail => Handling::Report(error),
        }
    }

    /// The number of the first try; an error where none is allowed.
    pub fn first_attempt(&self) -> (r: Result<u32, F4KvsError>)
        ensures
            self.max_retries >= 1 ==> r == Ok::<u32, F4KvsError>(1),
            self.max_retries == 0 ==> r is Err && r->Err_0.is_internal("Max retries exceeded"@),
    {
        if self.max_retries == 0 {
            return Err(F4KvsError::Internal { message: "Max retries exceeded".to_owned() });
        }
        Ok(1)
    }

    /// What the failure of a try calls for: as long as tries are left, a delay that doubles with
    /// each of them.
    pub fn retry_operation(&self, attempt: u32, error: F4KvsError) -> (r: RetryStep)
        requires
            attempt >= 1,
            attempt < self.max_retries ==> pow2((attempt - 1) as nat) <= u64::MAX
                && self.retry_delay_ms * pow2((attempt - 1) as nat) <= u64::MAX,
        ensures
            if attempt < self.max_retries {
                r matches RetryStep::Wait(ms) && ms == self.retry_delay_ms * pow2(
                    (attempt - 1) as nat,
                )
            } else {
                r == RetryStep::GiveUp(error)
            },
    {
        if attempt >= self.max_retries {
            return RetryStep::GiveUp(error);
        }
        let mut factor: u64 = 1;
        let mut i: u32 = 0;
        proof {
            lemma2_to64();
        }
        while i < attempt - 1
            invariant
                i <= attempt - 1,
                attempt >= 1,
                factor == pow2(i as nat),
                pow2((attempt - 1) as nat) <= u64::MAX,
            decreases attempt - 1 - i,
        {
            proof {
                lemma_pow2_unfold((i + 1) as nat);
                if i + 1 < attempt - 1 {
                    lemma_pow2_strictly_increases((i + 1) as nat, (attempt - 1) as nat);
                }
            }
            factor = factor * 2;
            i = i + 1;
        }
        RetryStep::Wait(self.retry_delay_ms * factor)
    }
}

/// How often an error of one kind occurred.
#[derive(Debug)]
pub struct TypeCount {
    /// The kind, as text.
    pub error_type: String,
    /// How often.
    pub count: u64,
}

/// How often errors of each severity occurred.
#[derive(Debug, Clone, Copy, PartialEq, Eq, Structural)]
pub struct SeverityCounts {
    /// Errors of low severity.
    pub low: u64,
    /// Errors of medium severity.
    pub medium: u64,
    /// Errors of high severity.
    pub high: u64,
    /// Errors of critical severity.
    pub critical: u64,
}

impl SeverityCounts {
    /// The counter of a severity.
    pub open spec fn at(self, severity: ErrorSeverity) -> u64 {
        match severity {
            ErrorSeverity::Low => self.low,
            ErrorSeverity::Medium => self.medium,
            ErrorSeverity::High => self.high,
            ErrorSeverity::Critical => self.critical,
        }
    }

    /// The counter of a severity.
    pub fn count(&self, severity: ErrorSeverity) -> (r: u64)
        ensures
            r == self.at(severity),
    {
        match severity {
            ErrorSeverity::Low => self.low,
            ErrorSeverity::Medium => self.medium,
            ErrorSeverity::High => self.high,
            ErrorSeverity::Critical => self.critical,
        }
    }
}

/// Counters of errors.
#[derive(Debug)]
pub struct ErrorMetrics {
    /// Number of errors.
    pub total_errors: u64,
    /// Number of errors of each severity.
    pub errors_by_severity: SeverityCounts,
    /// Number of errors of each kind.
    pub errors_by_type: Vec<TypeCount>,
    /// The part of the recoveries that succeeded, as of the last one that did.
    pub recovery_success_rate: Ratio,
    /// Number of recoveries.
    pub recovery_attempts: u64,
    /// Number of recoveries that succeeded.
    pub successful_recoveries: u64,
}

/// The counter of a kind, 0 where there is none.
pub open spec fn type_count(counts: Seq<TypeCount>, error_type: Seq<char>) -> nat
    decreases counts.len(),
{
    if counts.len() == 0 {
        0
    } else {
        type_count(counts.drop_last(), error_type) + if counts.last().error_type@ == error_type {
            counts.last().count as nat
        } else {
            0
        }
    }
}

/// No kind is counted twice.
pub open spec fn kinds_differ(counts: Seq<TypeCount>) -> bool {
    forall|i: int, j: int|
        0 <= i < j < counts.len() ==> (#[trigger] counts[i]).error_type@ != (
        #[trigger] counts[j]).error_type@
}

proof fn type_count_at(counts: Seq<TypeCount>, i: int)
    requires
        kinds_differ(counts),
        0 <= i < counts.len(),
    ensures
        type_count(counts, counts[i].error_type@) == counts[i].count,
    decreases counts.len(),
{
    let t = counts[i].error_type@;
    if i == counts.len() - 1 {
        type_count_absent(counts.drop_last(), t);
    } else {
        assert(counts.drop_last()[i] == counts[i]);
        assert(kinds_differ(counts.drop_last())) by {
            let c = counts.drop_last();
            assert forall|a: int, b: int| 0 <= a < b < c.len() implies (#[trigger] c[a]).error_type@
                != (#[trigger] c[b]).error_type@ by {
                assert(c[a] == counts[a] && c[b] == counts[b]);
            }
        }
        type_count_at(counts.drop_last(), i);
        assert(counts[i].error_type@ != counts[counts.len() - 1].error_type@);
    }
}

proof fn type_count_absent(counts: Seq<TypeCount>, t: Seq<char>)
    requires
        forall|i: int| 0 <= i < counts.len() ==> (#[trigger] counts[i]).error_type@ != t,
    ensures
        type_count(counts, t) == 0,
    decreases counts.len(),
{
    if counts.len() > 0 {
        type_count_absent(counts.drop_last(), t);
    }
}

proof fn type_count_changes(before: Seq<TypeCount>, i: int, entry: TypeCount, t: Seq<char>)
    requires
        kinds_differ(before),
        0 <= i < before.len(),
        entry.error_type@ == before[i].error_type@,
    ensures
        kinds_differ(before.update(i, entry)),
        type_count(before.update(i, entry), t) == if t == entry.error_type@ {
            entry.count as nat
        } else {
            type_count(before, t)
        },
    decreases before.len(),
{
    let after = before.update(i, entry);
    assert(kinds_differ(after)) by {
        assert forall|a: int, b: int| 0 <= a < b < after.len() implies (#[trigger] after[a]).error_type@
            != (#[trigger] after[b]).error_type@ by {
            assert(after[a].error_type@ == before[a].error_type@);
            assert(after[b].error_type@ == before[b].error_type@);
        }
    }
    if t == entry.error_type@ {
        type_count_at(after, i);
    } else {
        type_count_other(before, after, i, t);
    }
}

proof fn type_count_other(before: Seq<TypeCount>, after: Seq<TypeCount>, i: int, t: Seq<char>)
    requires
        0 <= i < before.len(),
        after.len() == before.len(),
        forall|k: int| 0 <= k < before.len() && k != i ==> after[k] == before[k],
        before[i].error_type@ != t,
        after[i].error_type@ != t,
    ensures
        type_count(after, t) == type_count(before, t),
    decreases before.len(),
{
    if i < before.len() - 1 {
        type_count_other(before.drop_last(), after.drop_last(), i, t);
    } else {
        assert(before.drop_last() =~= after.drop_last());
    }
}

/// Where a kind is counted; behind all counters where it is not.
fn find_type(counts: &Vec<TypeCount>, error_type: &str) -> (r: usize)
    ensures
        r <= counts@.len(),
        r < counts@.len() ==> counts@[r as int].error_type@ == error_type@,
        forall|j: int| 0 <= j < r ==> (#[trigger] counts@[j]).error_type@ != error_type@,
{
    let mut i: usize = 0;
    while i < counts.len()
        invariant
            i <= counts@.len(),
            forall|j: int| 0 <= j < i ==> (#[trigger] counts@[j]).error_type@ != error_type@,
        decreases counts@.len() - i,
    {
        if same_text(counts[i].error_type.as_str(), error_type) {
            return i;
        }
        i = i + 1;
    }
    i
}

impl Default for ErrorMetrics {
    fn default() -> (r: Self)
        ensures
            r.is_zero(),
    {
        ErrorMetrics {
            total_errors: 0,
            errors_by_severity: SeverityCounts { low: 0, medium: 0, high: 0, critical: 0 },
            errors_by_type: Vec::new(),
            recovery_success_rate: Ratio { part: 0, whole: 1 },
            recovery_attempts: 0,
            successful_recoveries: 0,
        }
    }
}

impl ErrorMetrics {
    /// Nothing was counted.
    pub open spec fn is_zero(self) -> bool {
        &&& self.total_errors == 0
        &&& self.errors_by_severity == (SeverityCounts { low: 0, medium: 0, high: 0, critical: 0 })
        &&& self.errors_by_type@.len() == 0
        &&& self.recovery_success_rate == (Ratio { part: 0, whole: 1 })
        &&& self.recovery_attempts == 0
        &&& self.successful_recoveries == 0
    }

    /// No kind is counted twice, and no counter exceeds the number of all errors.
    pub open spec fn wf(self) -> bool {
        &&& kinds_differ(self.errors_by_type@)
        &&& forall|i: int|
            0 <= i < self.errors_by_type@.len() ==> (#[trigger] self.errors_by_type@[i]).count
                <= self.total_errors
        &&& self.errors_by_severity.low + self.errors_by_severity.medium
            + self.errors_by_severity.high + self.errors_by_severity.critical == self.total_errors
    }

    /// One more error was counted, under its severity and this kind.
    pub open spec fn counted(
        before: ErrorMetrics,
        after: ErrorMetrics,
        severity: ErrorSeverity,
        kind: Seq<char>,
    ) -> bool {
        &&& after.total_errors == before.total_errors + 1
        &&& forall|s: ErrorSeverity| #[trigger]
            after.errors_by_severity.at(s) == before.errors_by_severity.at(s) + if s == severity {
                1int
            } else {
                0
            }
        &&& forall|t: Seq<char>| #[trigger]
            type_count(after.errors_by_type@, t) == type_count(before.errors_by_type@, t) + if t
                == kind {
                1nat
            } else {
                0
            }
        &&& after.recovery_success_rate == before.recovery_success_rate
        &&& after.recovery_attempts == before.recovery_attempts
        &&& after.successful_recoveries == before.successful_recoveries
    }

    /// Counts an error, under its severity and under its text for debugging.
    pub fn record_error(&mut self, error: &F4KvsError)
        requires
            old(self).wf(),
            old(self).total_errors < u64::MAX,
        ensures
            final(self).wf(),
            Self::counted(
                *old(self),
                *final(self),
                class_of(*error).severity,
                error.debug_shown(),
            ),
    {
        let error_type = error.debug_text();
        self.record_error_as(error, error_type.as_str());
    }

    /// Counts an error, under its severity and under the kind `error_type`.
    pub fn record_error_as(&mut self, error: &F4KvsError, error_type: &str)
        requires
            old(self).wf(),
            old(self).total_errors < u64::MAX,
        ensures
            final(self).wf(),
            Self::counted(*old(self), *final(self), class_of(*error).severity, error_type@),
    {
        self.total_errors = self.total_errors + 1;
        match ErrorClassification::classify(error).severity {
            ErrorSeverity::Low => {
                self.errors_by_severity.low = self.errors_by_severity.low + 1;
            },
            ErrorSeverity::Medium => {
                self.errors_by_severity.medium = self.errors_by_severity.medium + 1;
            },
            ErrorSeverity::High => {
                self.errors_by_severity.high = self.errors_by_severity.high + 1;
            },
            ErrorSeverity::Critical => {
                self.errors_by_severity.critical = self.errors_by_severity.critical + 1;
            },
        }
        let ghost before = self.errors_by_type@;
        let i: usize = find_type(&self.errors_by_type, error_type);
        if i < self.errors_by_type.len() {
            proof {
                type_count_at(before, i as int);
            }
            let grown: u64 = self.errors_by_type[i].count + 1;
            let entry = TypeCount { error_type: error_type.to_owned(), count: grown };
            proof {
                assert forall|t: Seq<char>| #[trigger]
                    type_count(before.update(i as int, entry), t) == type_count(before, t) + if t
                        == error_type@ {
                        1nat
                    } else {
                        0
                    } by {
                    type_count_changes(before, i as int, entry, t);
                }
                type_count_changes(before, i as int, entry, error_type@);
            }
            self.errors_by_type.set(i, entry);
        } else {
            let entry = TypeCount { error_type: error_type.to_owned(), count: 1 };
            proof {
                let after = before.push(entry);
                assert(after.drop_last() =~= before);
                type_count_absent(before, error_type@);
                assert forall|a: int, b: int| 0 <= a < b < after.len() implies (
                #[trigger] after[a]).error_type@ != (#[trigger] after[b]).error_type@ by {
                    assert(after[a] == before[a]);
                    if b < before.len() {
                        assert(after[b] == before[b]);
                    }
                }
            }
            self.errors_by_type.push(entry);
        }
    }

    /// Counts a recovery.
    pub fn record_recovery_attempt(&mut self)
        requires
            old(self).recovery_attempts < u64::MAX,
        ensures
            *final(self) == (ErrorMetrics {
                recovery_attempts: (old(self).recovery_attempts + 1) as u64,
                ..*old(self)
            }),
    {
        self.recovery_attempts = self.recovery_attempts + 1;
    }

    /// Counts a recovery that succeeded, and takes the rate anew.
    pub fn record_successful_recovery(&mut self)
        requires
            old(self).successful_recoveries < u64::MAX,
        ensures
            *final(self) == (ErrorMetrics {
                successful_recoveries: (old(self).successful_recoveries + 1) as u64,
                recovery_success_rate: (Ratio {
                    part: (old(self).successful_recoveries + 1) as u64,
                    whole: old(self).recovery_attempts,
                }),
                ..*old(self)
            }),
    {
        self.successful_recoveries = self.successful_recoveries + 1;
        self.recovery_success_rate = Ratio {
            part: self.successful_recoveries,
            whole: self.recovery_attempts,
        };
    }

    /// Forgets all counts.
    pub fn reset(&mut self)
        ensures
            final(self).is_zero(),
            final(self).wf(),
    {
        *self = ErrorMetrics::default();
    }
}

} // verus!
