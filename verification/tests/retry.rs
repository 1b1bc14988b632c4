use std::sync::atomic::{AtomicU64, Ordering};
use std::sync::Arc;
use tonic_xds::retry::{
    body_buffer_error, is_connection_error, ConnectionRetryConfig, ConnectionRetryLayer,
    ConnectionRetryService,
};
use tonic_xds::status::{CallError, Code, ErrorCause, IoErrorKind, Status};

fn io(kind: IoErrorKind, message: &str) -> CallError {
    CallError::new(ErrorCause::Io(kind), message)
}

fn status(status: Status) -> CallError {
    let message = status.message.clone();
    CallError::new(ErrorCause::Status(status), &message)
}

#[test]
fn test_is_connection_error_io_errors() {
    let conn_refused = io(IoErrorKind::ConnectionRefused, "connection refused");
    assert!(is_connection_error(&conn_refused));

    let conn_reset = io(IoErrorKind::ConnectionReset, "connection reset");
    assert!(is_connection_error(&conn_reset));

    let broken_pipe = io(IoErrorKind::BrokenPipe, "broken pipe");
    assert!(is_connection_error(&broken_pipe));

    // Non-connection errors should not trigger retry
    let timeout = io(IoErrorKind::TimedOut, "timed out");
    assert!(!is_connection_error(&timeout));

    // String errors should not trigger retry
    assert!(!is_connection_error(&CallError::new(
        ErrorCause::Other,
        "random error"
    )));
}

#[test]
fn test_is_connection_error_tonic_status() {
    // A status with UNAVAILABLE should trigger retry
    let unavailable = Status::unavailable("service unavailable");
    assert!(is_connection_error(&status(unavailable)));

    // A status with other codes should not trigger retry
    let internal = Status::internal("internal error");
    assert!(!is_connection_error(&status(internal)));

    let invalid_arg = Status::new(Code::InvalidArgument, "bad argument");
    assert!(!is_connection_error(&status(invalid_arg)));
}

#[test]
fn the_whole_chain_is_searched() {
    let mut error = CallError::new(ErrorCause::Other, "transport");
    assert!(!is_connection_error(&error));
    error.sources = vec![
        ErrorCause::Other,
        ErrorCause::Io(IoErrorKind::Other),
        ErrorCause::Io(IoErrorKind::ConnectionAborted),
    ];
    assert!(is_connection_error(&error));
    error.sources.pop();
    assert!(!is_connection_error(&error));
    error.sources.push(ErrorCause::Connect);
    assert!(is_connection_error(&error));
    assert!(is_connection_error(&CallError::new(ErrorCause::Connect, "")));
}

/// Sends a request whose calls end as listed, and returns what it comes to and how many calls it
/// took.
fn send(
    max_retries: u32,
    counter: Arc<AtomicU64>,
    outcomes: Vec<Result<u8, CallError>>,
) -> (Result<u8, CallError>, usize) {
    let config = ConnectionRetryConfig::with_counter(max_retries, counter);
    let service = ConnectionRetryService::new("inner", config);
    let (inner, mut attempts) = service.call("request".to_string());
    assert_eq!(inner, "inner");
    let mut calls = 0;
    for outcome in outcomes {
        // Every attempt sends the same
        assert_eq!(attempts.request(), "request");
        calls += 1;
        if let Some(result) = attempts.on_outcome(outcome) {
            return (result, calls);
        }
    }
    panic!("the request was not answered");
}

#[test]
fn a_request_is_retried_until_it_succeeds() {
    let counter = Arc::new(AtomicU64::new(0));
    let refused = io(IoErrorKind::ConnectionRefused, "refused");
    let (result, calls) = send(
        3,
        counter.clone(),
        vec![Err(refused.clone()), Err(refused), Ok(7), Ok(8)],
    );
    assert_eq!(result, Ok(7));
    assert_eq!(calls, 3);
    assert_eq!(counter.load(Ordering::Relaxed), 2);
}

#[test]
fn the_last_error_is_returned_once_retries_are_used_up() {
    let counter = Arc::new(AtomicU64::new(0));
    let first = io(IoErrorKind::ConnectionRefused, "first");
    let second = io(IoErrorKind::ConnectionReset, "second");
    let third = status(Status::unavailable("third"));
    let (result, calls) = send(
        2,
        counter.clone(),
        vec![Err(first), Err(second), Err(third.clone()), Ok(1)],
    );
    assert_eq!(result, Err(third));
    assert_eq!(calls, 3);
    assert_eq!(counter.load(Ordering::Relaxed), 2);
}

#[test]
fn other_errors_are_not_retried() {
    let counter = Arc::new(AtomicU64::new(0));
    let denied = status(Status::new(Code::PermissionDenied, "denied"));
    let (result, calls) = send(5, counter.clone(), vec![Err(denied.clone()), Ok(1)]);
    assert_eq!(result, Err(denied));
    assert_eq!(calls, 1);
    assert_eq!(counter.load(Ordering::Relaxed), 0);
}

#[test]
fn nothing_is_retried_where_no_retries_are_allowed() {
    let counter = Arc::new(AtomicU64::new(0));
    let refused = io(IoErrorKind::ConnectionRefused, "refused");
    let (result, calls) = send(0, counter.clone(), vec![Err(refused.clone()), Ok(1)]);
    assert_eq!(result, Err(refused));
    assert_eq!(calls, 1);
    assert_eq!(counter.load(Ordering::Relaxed), 0);
}

#[test]
fn configurations_share_a_counter_where_they_are_given_one() {
    let config = ConnectionRetryConfig::new(4);
    assert_eq!(config.max_retries, 4);
    assert_eq!(config.retry_counter.load(Ordering::Relaxed), 0);

    let layer = ConnectionRetryLayer::new(config.clone());
    let mut service = layer.layer(11u8);
    assert_eq!(*service.inner_mut(), 11);
    *service.inner_mut() = 12;
    let (inner, mut attempts) = service.call(());
    assert_eq!(inner, 12);
    let reset = io(IoErrorKind::ConnectionReset, "reset");
    assert!(attempts.on_outcome::<()>(Err(reset)).is_none());
    assert_eq!(config.retry_counter.load(Ordering::Relaxed), 1);
}

#[test]
fn a_body_that_cannot_be_read_is_an_error_of_its_own() {
    let error = body_buffer_error("stream closed");
    assert_eq!(error.message, "failed to buffer body: stream closed");
    assert_eq!(error.cause, ErrorCause::Other);
    assert!(error.sources.is_empty());
    assert!(!is_connection_error(&error));
}
