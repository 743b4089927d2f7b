//! What the handling of errors comes to: which errors are tried again, how they are told apart, and
//! how they are counted.

use crate::error::LsmError;
use crate::error_handling::{
    self, ErrorClassification, ErrorContext, ErrorHandler, ErrorMetrics, Handling, RecoveryStrategy,
    RetryStep, TypeCount,
};
use crate::kv_error::{self, F4KvsError};
use crate::text;
use vstd::prelude::*;
use vstd::string::*;

verus! {

/// An error is tried again exactly if it is one of the storage, of the file system or of time, which
/// are those that one can recover from; a key that is not there is skipped, and every other error is
/// reported as it is.
pub proof fn only_passing_errors_are_tried_again(
    h: ErrorHandler,
    error: F4KvsError,
    class: ErrorClassification,
    recoverable: bool,
    r: Handling,
)
    requires
        call_ensures(ErrorClassification::classify, (&error,), class),
        call_ensures(F4KvsError::is_recoverable, (&error,), recoverable),
        call_ensures(ErrorHandler::handle_error, (&h, error), r),
    ensures
        r is Retry <==> (error is Storage || error is Io || error is Timeout),
        class.recoverable <==> r is Retry,
        recoverable <==> r is Retry,
        class.recovery_strategy == RecoveryStrategy::Retry <==> r is Retry,
        error is KeyNotFound ==> (r matches Handling::Report(e) && e is Internal),
        !(error is KeyNotFound) && !(r is Retry) ==> r == Handling::Report(error),
{
}

/// A missing key is no cause for concern, a bad key or value is the caller's matter, a passing error
/// is a serious one, and every other error is critical; all but the first are logged, and those
/// beyond the caller's matter are reported.
pub proof fn severity_follows_the_cause(
    h: ErrorHandler,
    error: F4KvsError,
    class: ErrorClassification,
    logged: bool,
    reported: bool,
)
    requires
        call_ensures(ErrorClassification::classify, (&error,), class),
        call_ensures(ErrorHandler::logs, (&h, &error), logged),
        call_ensures(ErrorHandler::reports, (&h, &error), reported),
    ensures
        class.severity == error_handling::ErrorSeverity::Low <==> error is KeyNotFound,
        class.severity == error_handling::ErrorSeverity::Medium <==> error is InvalidKey || error is InvalidValue,
        class.severity == error_handling::ErrorSeverity::High <==> error is Storage || error is Io || error is Timeout,
        logged <==> h.enable_logging && !(error is KeyNotFound),
        reported <==> h.enable_reporting && !(error is KeyNotFound) && !(error is InvalidKey) && !(
        error is InvalidValue),
        reported && h.enable_logging ==> logged,
{
}

/// How severe an error is by itself: one of the caller is low, one of the configuration or of the
/// form of data is medium, an internal one is critical, and every other one is high.
pub proof fn own_severity_follows_the_cause(error: F4KvsError, r: kv_error::ErrorSeverity)
    requires
        call_ensures(F4KvsError::severity, (&error,), r),
    ensures
        r == kv_error::ErrorSeverity::Low <==> error is InvalidKey || error is InvalidValue || error is KeyNotFound,
        r == kv_error::ErrorSeverity::Medium <==> error is Config || error is InvalidConfiguration || error is Serialization,
        r == kv_error::ErrorSeverity::Critical <==> error is Internal,
{
}

/// The wait before a further try is the configured one at first and doubles with each failed try; the
/// last allowed try is followed by none, and the error is told.
pub proof fn waits_double(
    h: ErrorHandler,
    attempt: u32,
    a: F4KvsError,
    b: F4KvsError,
    r: RetryStep,
    s: RetryStep,
)
    requires
        attempt >= 1,
        attempt < u32::MAX,
        call_ensures(ErrorHandler::retry_operation, (&h, attempt, a), r),
        call_ensures(ErrorHandler::retry_operation, (&h, (attempt + 1) as u32, b), s),
    ensures
        r is Wait <==> attempt < h.max_retries,
        attempt >= h.max_retries ==> r == RetryStep::GiveUp(a),
        r matches RetryStep::Wait(ms) ==> (attempt == 1 ==> ms == h.retry_delay_ms),
        r matches RetryStep::Wait(ms) ==> (s matches RetryStep::Wait(next) ==> next == 2 * ms),
{
    vstd::arithmetic::power2::lemma2_to64();
    let n = (attempt - 1) as nat;
    vstd::arithmetic::power2::lemma_pow2_unfold((n + 1) as nat);
    let (d, p) = (h.retry_delay_ms as int, vstd::arithmetic::power2::pow2(n) as int);
    assert(d * (2 * p) == 2 * (d * p)) by (nonlinear_arith);
    assert(d * 1 == d);
}

/// The text that an error holds.
pub open spec fn held_text(e: F4KvsError) -> Seq<char> {
    match e {
        F4KvsError::InvalidKey { reason } => reason@,
        F4KvsError::InvalidValue { reason } => reason@,
        F4KvsError::Storage { message } => message@,
        F4KvsError::Io { message } => message@,
        F4KvsError::Serialization { message } => message@,
        F4KvsError::Timeout { operation, .. } => operation@,
        F4KvsError::KeyNotFound { key } => key@,
        F4KvsError::Config { message } => message@,
        F4KvsError::Internal { message } => message@,
        F4KvsError::Encryption { message } => message@,
        F4KvsError::InvalidConfiguration { message } => message@,
    }
}

/// What is shown of an error holds the error's own text, and ends with it unless the error tells of a
/// time.
pub proof fn shown_error_holds_its_text(e: F4KvsError, shown: String)
    requires
        call_ensures(F4KvsError::to_text, (&e,), shown),
    ensures
        text::contains(shown@, held_text(e)),
        !(e is Timeout) ==> held_text(e).is_suffix_of(shown@),
        shown@.len() > held_text(e).len(),
{
    reveal_strlit("Invalid key: ");
    reveal_strlit("Invalid value: ");
    reveal_strlit("Storage error: ");
    reveal_strlit("I/O error: ");
    reveal_strlit("Serialization error: ");
    reveal_strlit("Key not found: ");
    reveal_strlit("Configuration error: ");
    reveal_strlit("Internal error: ");
    reveal_strlit("Encryption error: ");
    reveal_strlit("Invalid configuration: ");
    reveal_strlit("Operation '");
    let (s, t) = (shown@, held_text(e));
    if e is Timeout {
        assert(s.subrange(11, (11 + t.len()) as int) =~= t);
        assert(text::part_at(s, t, 11));
    } else {
        let at = s.len() - t.len();
        assert(s.subrange(at, s.len() as int) =~= t);
        assert(text::part_at(s, t, at));
    }
}

/// A failure that is put in a context tells the context before its own text. It stays of its kind,
/// unless it is one of a key, a value or a time, which becomes an internal one; what succeeded stays
/// as it is.
pub proof fn context_leads<T>(
    x: Result<T, F4KvsError>,
    context: &str,
    r: Result<T, F4KvsError>,
)
    requires
        call_ensures(<Result<T, F4KvsError> as ErrorContext>::with_context, (x, context), r),
    ensures
        x is Ok ==> r == x,
        x is Err ==> r is Err,
        x matches Err(e) ==> (r matches Err(c) ==> {
            &&& (context@ + ": "@).is_prefix_of(held_text(c))
            &&& e is Io ==> c is Io
            &&& e is Storage ==> c is Storage
            &&& e is Serialization ==> c is Serialization
            &&& e is Config ==> c is Config
            &&& e is Internal ==> c is Internal
            &&& e is Encryption ==> c is Encryption
            &&& e is InvalidConfiguration ==> c is InvalidConfiguration
            &&& e is InvalidKey || e is InvalidValue || e is KeyNotFound || e is Timeout
                ==> c is Internal && held_text(c) == context@ + ": "@ + e.shown()
            &&& !(e is InvalidKey || e is InvalidValue || e is KeyNotFound || e is Timeout)
                ==> held_text(c) == context@ + ": "@ + held_text(e)
        }),
{
    let lead = context@ + ": "@;
    if let Err(e) = x {
        if let Err(c) = r {
            assert(held_text(c).subrange(0, lead.len() as int) =~= lead);
        }
    }
}

/// What is told of an error of the engine ends with the error's own text.
pub proof fn told_engine_error_ends_with_its_text(e: LsmError, shown: String)
    requires
        call_ensures(LsmError::user_message, (&e,), shown),
    ensures
        match e {
            LsmError::Io(io) => io.message@.is_suffix_of(shown@) && shown@.len() > io.message@.len(),
            LsmError::Corruption(m) => m@.is_suffix_of(shown@) && shown@.len() > m@.len(),
            LsmError::Serialization(m) => m@.is_suffix_of(shown@) && shown@.len() > m@.len(),
            LsmError::Internal(m) => m@.is_suffix_of(shown@) && shown@.len() > m@.len(),
            LsmError::Wal(m) => m@.is_suffix_of(shown@) && shown@.len() > m@.len(),
            LsmError::BloomFilter(m) => m@.is_suffix_of(shown@) && shown@.len() > m@.len(),
        },
{
    reveal_strlit("I/O error: ");
    reveal_strlit("Data corruption: ");
    reveal_strlit("Serialization error: ");
    reveal_strlit("Internal error: ");
    reveal_strlit("WAL error: ");
    reveal_strlit("Index error: ");
    let (s, t) = (shown@, e.detail());
    assert(s.subrange(s.len() - t.len(), s.len() as int) =~= t);
}

/// An error that is recorded adds one to the whole count and to the count of its severity alone.
pub proof fn errors_are_counted_by_severity(
    m: &mut ErrorMetrics,
    error: F4KvsError,
    class: ErrorClassification,
    s: error_handling::ErrorSeverity,
    before: u64,
    after: u64,
)
    requires
        old(m).wf(),
        call_ensures(ErrorMetrics::record_error, (m, &error), ()),
        call_ensures(ErrorClassification::classify, (&error,), class),
        call_ensures(error_handling::SeverityCounts::count, (&old(m).errors_by_severity, s), before),
        call_ensures(
            error_handling::SeverityCounts::count,
            (&final(m).errors_by_severity, s),
            after,
        ),
    ensures
        final(m).total_errors == old(m).total_errors + 1,
        s == class.severity ==> after == before + 1,
        s != class.severity ==> after == before,
        final(m).errors_by_severity.low + final(m).errors_by_severity.medium + final(m).errors_by_severity.high + final(m).errors_by_severity.critical == final(m).total_errors,
{
}

proof fn count_of_kind(counts: Seq<TypeCount>, i: int)
    requires
        error_handling::kinds_differ(counts),
        0 <= i < counts.len(),
    ensures
        error_handling::type_count(counts, counts[i].error_type@) == counts[i].count,
    decreases counts.len(),
{
    let less = counts.drop_last();
    let n = counts.len() - 1;
    assert(error_handling::kinds_differ(less)) by {
        assert forall|a: int, b: int| 0 <= a < b < less.len() implies (
        #[trigger] less[a]).error_type@ != (#[trigger] less[b]).error_type@ by {
            assert(counts[a] == less[a] && counts[b] == less[b]);
        }
    }
    if i < n {
        assert(less[i] == counts[i]);
        count_of_kind(less, i);
        assert(counts[n].error_type@ != counts[i].error_type@);
    } else {
        assert forall|j: int| 0 <= j < less.len() implies (#[trigger] less[j]).error_type@
            != counts[n].error_type@ by {
            assert(counts[j] == less[j]);
        }
        no_count_of_kind(less, counts[n].error_type@);
    }
}

proof fn no_count_of_kind(counts: Seq<TypeCount>, kind: Seq<char>)
    requires
        forall|j: int| 0 <= j < counts.len() ==> (#[trigger] counts[j]).error_type@ != kind,
    ensures
        error_handling::type_count(counts, kind) == 0,
    decreases counts.len(),
{
    if counts.len() > 0 {
        let less = counts.drop_last();
        assert forall|j: int| 0 <= j < less.len() implies (#[trigger] less[j]).error_type@ != kind by {
            assert(counts[j] == less[j]);
        }
        no_count_of_kind(less, kind);
    }
}

proof fn some_count_of_kind(counts: Seq<TypeCount>, kind: Seq<char>)
    requires
        error_handling::type_count(counts, kind) > 0,
    ensures
        exists|j: int| 0 <= j < counts.len() && (#[trigger] counts[j]).error_type@ == kind,
{
    if forall|j: int| 0 <= j < counts.len() ==> (#[trigger] counts[j]).error_type@ != kind {
        no_count_of_kind(counts, kind);
    }
}

/// An error that is recorded under a kind is counted there: the kind has a count of one, or one more
/// than before, and the counts of other kinds stay.
pub proof fn errors_are_counted_by_kind(m: &mut ErrorMetrics, error: F4KvsError, kind: &str)
    requires
        old(m).wf(),
        old(m).total_errors < u64::MAX,
        call_ensures(ErrorMetrics::record_error_as, (m, &error, kind), ()),
    ensures
        exists|j: int|
            {
                &&& 0 <= j < final(m).errors_by_type@.len()
                &&& (#[trigger] final(m).errors_by_type@[j]).error_type@ == kind@
                &&& (forall|i: int|
                    0 <= i < old(m).errors_by_type@.len() ==> (
                    #[trigger] old(m).errors_by_type@[i]).error_type@ != kind@)
                    ==> final(m).errors_by_type@[j].count == 1
                &&& forall|i: int|
                    0 <= i < old(m).errors_by_type@.len() && (
                    #[trigger] old(m).errors_by_type@[i]).error_type@ == kind@
                        ==> final(m).errors_by_type@[j].count == old(m).errors_by_type@[i].count + 1
            },
        forall|i: int|
            0 <= i < old(m).errors_by_type@.len() && (
            #[trigger] old(m).errors_by_type@[i]).error_type@ != kind@ && old(m).errors_by_type@[i].count > 0 ==> exists|j: int|
                0 <= j < final(m).errors_by_type@.len() && (
                #[trigger] final(m).errors_by_type@[j]).error_type@ == old(m).errors_by_type@[i].error_type@ && final(m).errors_by_type@[j].count == old(m).errors_by_type@[i].count,
{
    let (before, after) = (old(m).errors_by_type@, final(m).errors_by_type@);
    assert(error_handling::type_count(after, kind@) == error_handling::type_count(before, kind@) + 1);
    some_count_of_kind(after, kind@);
    let j = choose|j: int| 0 <= j < after.len() && (#[trigger] after[j]).error_type@ == kind@;
    count_of_kind(after, j);
    if forall|i: int| 0 <= i < before.len() ==> (#[trigger] before[i]).error_type@ != kind@ {
        no_count_of_kind(before, kind@);
    }
    assert forall|i: int| 0 <= i < before.len() && (#[trigger] before[i]).error_type@ == kind@ implies after[j].count
        == before[i].count + 1 by {
        count_of_kind(before, i);
    }
    assert forall|i: int|
        0 <= i < before.len() && (#[trigger] before[i]).error_type@ != kind@ && before[i].count > 0 implies exists|
        k: int,
    |
        0 <= k < after.len() && (#[trigger] after[k]).error_type@ == before[i].error_type@
            && after[k].count == before[i].count by {
        let t = before[i].error_type@;
        count_of_kind(before, i);
        assert(error_handling::type_count(after, t) == error_handling::type_count(before, t));
        some_count_of_kind(after, t);
        let k = choose|k: int| 0 <= k < after.len() && (#[trigger] after[k]).error_type@ == t;
        count_of_kind(after, k);
    }
    assert(after[j].error_type@ == kind@);
}

/// An error is counted under what is told of it for debugging.
pub proof fn kind_is_what_is_told_for_debugging(
    m: &mut ErrorMetrics,
    error: F4KvsError,
    kind: String,
)
    requires
        old(m).wf(),
        old(m).total_errors < u64::MAX,
        call_ensures(F4KvsError::debug_text, (&error,), kind),
        call_ensures(ErrorMetrics::record_error, (m, &error), ()),
    ensures
        exists|j: int|
            0 <= j < final(m).errors_by_type@.len() && (
            #[trigger] final(m).errors_by_type@[j]).error_type@ == kind@,
{
    let after = final(m).errors_by_type@;
    assert(error_handling::type_count(after, kind@) == error_handling::type_count(
        old(m).errors_by_type@,
        kind@,
    ) + 1);
    some_count_of_kind(after, kind@);
}

/// The success rate is the share of the recoveries in the attempts.
pub proof fn success_rate_is_the_share(m: &mut ErrorMetrics)
    requires
        old(m).successful_recoveries < u64::MAX,
        call_ensures(ErrorMetrics::record_successful_recovery, (m,), ()),
    ensures
        final(m).successful_recoveries == old(m).successful_recoveries + 1,
        final(m).recovery_success_rate.part == final(m).successful_recoveries,
        final(m).recovery_success_rate.whole == final(m).recovery_attempts,
        final(m).total_errors == old(m).total_errors,
{
}

/// What is shown of an error of the engine begins with what the error is of.
pub proof fn engine_errors_are_told_apart(e: LsmError, shown: String)
    requires
        call_ensures(LsmError::user_message, (&e,), shown),
    ensures
        e is Io <==> shown@[1] == '/',
        e is Corruption <==> shown@[0] == 'D',
        e is Serialization <==> shown@[0] == 'S',
        e is Wal <==> shown@[0] == 'W',
        e is Internal <==> shown@[1] == 'n' && shown@[2] == 't',
        e is BloomFilter <==> shown@[1] == 'n' && shown@[2] == 'd',
{
    reveal_strlit("I/O error: ");
    reveal_strlit("Data corruption: ");
    reveal_strlit("Serialization error: ");
    reveal_strlit("Internal error: ");
    reveal_strlit("WAL error: ");
    reveal_strlit("Index error: ");
}

/// What is shown of an error of the storage begins with what the error is of.
pub proof fn storage_errors_are_told_apart(e: F4KvsError, shown: String)
    requires
        call_ensures(F4KvsError::to_text, (&e,), shown),
    ensures
        e is Io <==> shown@[1] == '/',
        e is Storage <==> shown@[0] == 'S' && shown@[1] == 't',
        e is Serialization <==> shown@[0] == 'S' && shown@[1] == 'e',
        e is Timeout <==> shown@[0] == 'O',
        e is KeyNotFound <==> shown@[0] == 'K',
        e is Config <==> shown@[0] == 'C',
        e is Encryption <==> shown@[0] == 'E',
        e is Internal <==> shown@[0] == 'I' && shown@[2] == 't',
        e is InvalidKey <==> shown@[2] == 'v' && shown@[8] == 'k',
        e is InvalidValue <==> shown@[2] == 'v' && shown@[8] == 'v',
        e is InvalidConfiguration <==> shown@[2] == 'v' && shown@[8] == 'c',
{
    reveal_strlit("Invalid key: ");
    reveal_strlit("Invalid value: ");
    reveal_strlit("Storage error: ");
    reveal_strlit("I/O error: ");
    reveal_strlit("Serialization error: ");
    reveal_strlit("Operation '");
    reveal_strlit("Key not found: ");
    reveal_strlit("Configuration error: ");
    reveal_strlit("Internal error: ");
    reveal_strlit("Encryption error: ");
    reveal_strlit("Invalid configuration: ");
}

} // verus!
