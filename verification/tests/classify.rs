use http::{HeaderMap, HeaderValue};
use tonic_xds::cluster::classify::{
    classify_call_error, classify_grpc_http_result, classify_grpc_status,
    classify_grpc_status_header, noop_classify, CallOutcome, GrpcHttpClassifier,
    GrpcResultClassifier, NoopClassifier, ResultClassifier,
};
use tonic_xds::number::parse_i32;
use tonic_xds::status::{CallError, Code, ErrorCause, IoErrorKind, Status};

/// Every code with its number and how it is judged.
const CODES: [(Code, i32, CallOutcome); 17] = [
    (Code::Okay, 0, CallOutcome::Success),
    (Code::Cancelled, 1, CallOutcome::Success),
    (Code::Unknown, 2, CallOutcome::Failure),
    (Code::InvalidArgument, 3, CallOutcome::Success),
    (Code::DeadlineExceeded, 4, CallOutcome::Failure),
    (Code::NotFound, 5, CallOutcome::Success),
    (Code::AlreadyExists, 6, CallOutcome::Success),
    (Code::PermissionDenied, 7, CallOutcome::Success),
    (Code::ResourceExhausted, 8, CallOutcome::Failure),
    (Code::FailedPrecondition, 9, CallOutcome::Success),
    (Code::Aborted, 10, CallOutcome::Success),
    (Code::OutOfRange, 11, CallOutcome::Success),
    (Code::Unimplemented, 12, CallOutcome::Success),
    (Code::Internal, 13, CallOutcome::Failure),
    (Code::Unavailable, 14, CallOutcome::Failure),
    (Code::DataLoss, 15, CallOutcome::Success),
    (Code::Unauthenticated, 16, CallOutcome::Success),
];

fn status_error(code: Code) -> CallError {
    CallError::new(ErrorCause::Status(Status::new(code, "x")), "x")
}

fn headers(value: &str) -> HeaderMap {
    let mut headers = HeaderMap::new();
    headers.insert("grpc-status", HeaderValue::from_str(value).unwrap());
    headers
}

#[test]
fn codes_are_judged_alike_in_statuses_headers_and_errors() {
    for (code, number, outcome) in CODES {
        assert_eq!(classify_grpc_status(&Status::new(code, "x")), outcome);
        assert_eq!(classify_call_error(&status_error(code)), outcome);
        let text = number.to_string();
        assert_eq!(classify_grpc_status_header(Some(&text)), outcome);
        assert_eq!(classify_grpc_http_result(&Ok(&headers(&text))), outcome);
        assert_eq!(classify_grpc_http_result(&Err(status_error(code))), outcome);
    }
}

#[test]
fn missing_and_unreadable_headers_are_successes() {
    assert_eq!(classify_grpc_status_header(None), CallOutcome::Success);
    assert_eq!(
        classify_grpc_http_result(&Ok(&HeaderMap::new())),
        CallOutcome::Success
    );
    for text in ["", "abc", "1 4", "14x", "-", "+", "99999999999", "17", "-14"] {
        assert_eq!(
            classify_grpc_http_result(&Ok(&headers(text))),
            CallOutcome::Success
        );
    }
    let mut opaque = HeaderMap::new();
    opaque.insert("grpc-status", HeaderValue::from_bytes(b"14\xff").unwrap());
    assert_eq!(
        classify_grpc_http_result(&Ok(&opaque)),
        CallOutcome::Success
    );
}

#[test]
fn signs_and_zeros_are_read() {
    assert_eq!(
        classify_grpc_http_result(&Ok(&headers("+14"))),
        CallOutcome::Failure
    );
    assert_eq!(
        classify_grpc_http_result(&Ok(&headers("0014"))),
        CallOutcome::Failure
    );
}

#[test]
fn the_first_of_several_headers_counts() {
    let mut several = headers("0");
    several.append("grpc-status", HeaderValue::from_static("14"));
    several.insert("grpc-message", HeaderValue::from_static("14"));
    assert_eq!(
        classify_grpc_http_result(&Ok(&several)),
        CallOutcome::Success
    );
}

#[test]
fn errors_that_are_no_status_are_failures() {
    for cause in [
        ErrorCause::Other,
        ErrorCause::Connect,
        ErrorCause::Io(IoErrorKind::TimedOut),
    ] {
        assert_eq!(
            classify_call_error(&CallError::new(cause, "x")),
            CallOutcome::Failure
        );
    }
    // Only the error itself is looked at, not what caused it
    let mut error = status_error(Code::NotFound);
    error.sources.push(ErrorCause::Connect);
    assert_eq!(classify_call_error(&error), CallOutcome::Success);
}

#[test]
fn classifiers_classify() {
    let ok: Result<u8, CallError> = Ok(1);
    assert_eq!(GrpcResultClassifier.classify(&ok), CallOutcome::Success);
    let err: Result<u8, CallError> = Err(status_error(Code::Unavailable));
    assert_eq!(GrpcResultClassifier.classify(&err), CallOutcome::Failure);
    let err: Result<u8, CallError> = Err(status_error(Code::NotFound));
    assert_eq!(GrpcResultClassifier.classify(&err), CallOutcome::Success);
    assert_eq!(
        GrpcHttpClassifier.classify(&Ok(&headers("13"))),
        CallOutcome::Failure
    );
    assert_eq!(NoopClassifier.classify(&err), CallOutcome::Success);
    assert_eq!(noop_classify(&err), CallOutcome::Success);
}

#[test]
fn numbers_are_read_as_the_standard_library_reads_them() {
    for text in [
        "0",
        "-0",
        "+0",
        "7",
        "-7",
        "+7",
        "007",
        "2147483647",
        "2147483648",
        "-2147483648",
        "-2147483649",
        "00000000000000000000000000012",
        "99999999999999999999999",
        "",
        "-",
        "+",
        "--1",
        "+-1",
        "1-",
        " 1",
        "1 ",
        "1.0",
        "0x1",
        "\u{663}",
        "12a",
    ] {
        assert_eq!(parse_i32(text), text.parse::<i32>().ok(), "{text:?}");
    }
}
