//! What is done about errors.

use f4kvs_lsm::error_handling::{
    ErrorClassification, ErrorContext, ErrorHandler, ErrorMetrics, ErrorSeverity, Handling,
    RecoveryStrategy, RetryStep,
};
use f4kvs_lsm::kv_error::F4KvsError;

#[test]
fn test_error_context() {
    let result: Result<(), F4KvsError> = Err(F4KvsError::io("Test error"));
    let result_with_context = result.with_context("Operation failed");

    match result_with_context {
        Err(F4KvsError::Io { message }) => {
            assert!(message.contains("Operation failed"));
            assert!(message.contains("Test error"));
        }
        _ => panic!("Expected Io error"),
    }
}

#[test]
fn test_error_classification() {
    let io_error = F4KvsError::io("Test IO error");
    let classification = ErrorClassification::classify(&io_error);

    assert_eq!(classification.severity, ErrorSeverity::High);
    assert!(classification.recoverable);
    assert_eq!(classification.recovery_strategy, RecoveryStrategy::Retry);
    assert!(classification.should_log);
    assert!(classification.should_report);
}

#[test]
fn test_error_metrics() {
    let mut metrics = ErrorMetrics::default();

    metrics.record_error(&F4KvsError::io("Test error"));
    metrics.record_recovery_attempt();
    metrics.record_successful_recovery();

    assert_eq!(metrics.total_errors, 1);
    assert_eq!(metrics.recovery_attempts, 1);
    assert_eq!(metrics.successful_recoveries, 1);
    let rate = metrics.recovery_success_rate;
    assert_eq!(rate.part as f64 / rate.whole as f64, 1.0);
}

#[test]
fn contexts_keep_the_kind_of_an_error() {
    let kinds = [
        F4KvsError::storage("x"),
        F4KvsError::io("x"),
        F4KvsError::serialization("x"),
        F4KvsError::config("x"),
        F4KvsError::internal("x"),
        F4KvsError::encryption("x"),
        F4KvsError::invalid_configuration("x"),
    ];
    for error in kinds {
        let kind = std::mem::discriminant(&error);
        let plain: Result<(), F4KvsError> = Err(error.clone());
        let told = plain.with_context("reading").unwrap_err();
        assert_eq!(std::mem::discriminant(&told), kind);
        assert!(told.to_text().contains("reading: x"));
        let lazy: Result<(), F4KvsError> = Err(error);
        let told = lazy.with_context_lazy(|| "writing".to_string()).unwrap_err();
        assert!(told.to_text().contains("writing: x"));
    }
    let key: Result<(), F4KvsError> = Err(F4KvsError::invalid_key("x"));
    assert_eq!(
        key.with_context("reading").unwrap_err(),
        F4KvsError::internal("reading: Invalid key: x")
    );
    let fine: Result<u8, F4KvsError> = Ok(3);
    assert_eq!(fine.with_context("reading").unwrap(), 3);
}

#[test]
fn delays_double_until_tries_run_out() {
    let handler = ErrorHandler::new(4, 100);
    assert_eq!(handler.first_attempt().unwrap(), 1);
    for (attempt, delay) in [(1, 100), (2, 200), (3, 400)] {
        match handler.retry_operation(attempt, F4KvsError::io("x")) {
            RetryStep::Wait(ms) => assert_eq!(ms, delay),
            other => panic!("{other:?}"),
        }
    }
    match handler.retry_operation(4, F4KvsError::io("x")) {
        RetryStep::GiveUp(e) => assert_eq!(e, F4KvsError::io("x")),
        other => panic!("{other:?}"),
    }
    match ErrorHandler::new(0, 1).first_attempt() {
        Err(F4KvsError::Internal { message }) => assert_eq!(message, "Max retries exceeded"),
        other => panic!("{other:?}"),
    }
}

#[test]
fn errors_are_handled_by_their_class() {
    let handler = ErrorHandler::default();
    assert!(matches!(handler.handle_error(F4KvsError::storage("x")), Handling::Retry));
    match handler.handle_error(F4KvsError::KeyNotFound { key: "k".to_string() }) {
        Handling::Report(e) => {
            assert_eq!(e, F4KvsError::internal("Operation skipped due to error"));
        }
        other => panic!("{other:?}"),
    }
    match handler.handle_error(F4KvsError::config("x")) {
        Handling::Report(e) => assert_eq!(e, F4KvsError::config("x")),
        other => panic!("{other:?}"),
    }
    let missing = ErrorClassification::classify(&F4KvsError::KeyNotFound { key: "k".to_string() });
    assert_eq!(missing.recovery_strategy, RecoveryStrategy::Skip);
    assert!(!missing.should_log);
    assert!(handler.logs(&F4KvsError::invalid_key("x")));
    assert!(!handler.reports(&F4KvsError::invalid_key("x")));
    assert_eq!(
        ErrorClassification::classify(&F4KvsError::internal("x")).severity,
        ErrorSeverity::Critical
    );
}

#[test]
fn metrics_count_by_kind_and_severity() {
    let mut metrics = ErrorMetrics::default();
    metrics.record_error(&F4KvsError::io("a"));
    metrics.record_error(&F4KvsError::io("a"));
    metrics.record_error(&F4KvsError::internal("c"));
    assert_eq!(metrics.total_errors, 3);
    assert_eq!(metrics.errors_by_severity.count(ErrorSeverity::High), 2);
    assert_eq!(metrics.errors_by_severity.count(ErrorSeverity::Critical), 1);
    assert_eq!(metrics.errors_by_type.len(), 2);
    let io = metrics.errors_by_type.iter().find(|t| t.error_type == r#"Io { message: "a" }"#);
    assert_eq!(io.unwrap().count, 2);
    metrics.record_error(&F4KvsError::io("b"));
    assert_eq!(metrics.errors_by_type.len(), 3);
    metrics.record_error_as(&F4KvsError::io("c"), "Io");
    assert_eq!(metrics.errors_by_type[3].error_type, "Io");
    metrics.record_recovery_attempt();
    metrics.record_recovery_attempt();
    metrics.record_successful_recovery();
    let rate = metrics.recovery_success_rate;
    assert_eq!(rate.part as f64 / rate.whole as f64, 0.5);
    metrics.reset();
    assert_eq!(metrics.total_errors, 0);
    assert!(metrics.errors_by_type.is_empty());
}

#[test]
fn errors_are_told_for_debugging() {
    let text = "a \"quoted\" \\ text\n\u{7f}\u{e9}".to_string();
    let errors = vec![
        F4KvsError::invalid_key(&text),
        F4KvsError::invalid_value(&text),
        F4KvsError::storage(&text),
        F4KvsError::io(&text),
        F4KvsError::serialization(&text),
        F4KvsError::Timeout { operation: text.clone(), timeout_ms: 1500 },
        F4KvsError::KeyNotFound { key: text.clone() },
        F4KvsError::config(&text),
        F4KvsError::internal(&text),
        F4KvsError::encryption(&text),
        F4KvsError::invalid_configuration(&text),
    ];
    for e in errors {
        assert_eq!(e.debug_text(), format!("{:?}", e));
    }
    assert_eq!(
        F4KvsError::Timeout { operation: "get".to_string(), timeout_ms: 5 }.debug_text(),
        r#"Timeout { operation: "get", timeout_ms: 5 }"#
    );
}
