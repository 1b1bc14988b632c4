//! Classifying the results of calls for outlier detection.

use crate::ext::headers::{header_text, readable_headers};
use crate::number::{parse_i32, parsed_i32};
use crate::status::{CallError, Code, ErrorCause, Status};
use http::HeaderMap;
use vstd::prelude::*;

verus! {

/// Outcome of a call for outlier detection.
#[derive(Debug, Clone, Copy, PartialEq, Eq, Structural)]
pub enum CallOutcome {
    Success,
    Failure,
}

/// Whether a gRPC status code counts against the endpoint.
pub open spec fn code_outcome(code: Code) -> CallOutcome {
    match code {
        Code::Unavailable | Code::Internal | Code::ResourceExhausted | Code::Unknown
        | Code::DeadlineExceeded => CallOutcome::Failure,
        _ => CallOutcome::Success,
    }
}

/// Whether the number in a `grpc-status` header counts against the endpoint.
pub open spec fn number_outcome(number: int) -> CallOutcome {
    if number == 2 || number == 4 || number == 8 || number == 13 || number == 14 {
        CallOutcome::Failure
    } else {
        CallOutcome::Success
    }
}

/// How the value of a `grpc-status` header is judged; a missing or unreadable one is a success.
pub open spec fn header_outcome(text: Option<Seq<char>>) -> CallOutcome {
    match text {
        Some(t) => match parsed_i32(t) {
            Some(number) => number_outcome(number as int),
            None => CallOutcome::Success,
        },
        None => CallOutcome::Success,
    }
}

/// How an error is judged: by its code where it is a gRPC status, else as a failure.
pub open spec fn error_outcome(error: CallError) -> CallOutcome {
    match error.cause {
        ErrorCause::Status(status) => code_outcome(status.code),
        _ => CallOutcome::Failure,
    }
}

/// The value of the `grpc-status` header, where there is a readable one.
pub open spec fn grpc_status_header(headers: HeaderMap) -> Option<Seq<char>> {
    if readable_headers(headers).contains_key("grpc-status"@) {
        Some(readable_headers(headers)["grpc-status"@])
    } else {
        None
    }
}

/// How a gRPC response, of which the headers are given, or the error in its place is judged.
pub open spec fn http_outcome(result: Result<&HeaderMap, CallError>) -> CallOutcome {
    match result {
        Ok(headers) => header_outcome(grpc_status_header(*headers)),
        Err(error) => error_outcome(error),
    }
}

/// Classify gRPC status code for outlier detection.
pub fn classify_grpc_status(status: &Status) -> (outcome: CallOutcome)
    ensures
        outcome == code_outcome(status.code),
{
    match status.code {
        // Server-side failures that indicate endpoint health issues
        Code::Unavailable | Code::Internal | Code::ResourceExhausted | Code::Unknown => {
            CallOutcome::Failure
        },
        // DeadlineExceeded could be server or network issue
        Code::DeadlineExceeded => CallOutcome::Failure,
        // Client errors or OK - don't count against server
        Code::Okay
        | Code::Cancelled
        | Code::InvalidArgument
        | Code::NotFound
        | Code::AlreadyExists
        | Code::PermissionDenied
        | Code::FailedPrecondition
        | Code::Aborted
        | Code::OutOfRange
        | Code::Unimplemented
        | Code::DataLoss
        | Code::Unauthenticated => CallOutcome::Success,
    }
}

/// Classifies the value of a `grpc-status` header.
pub fn classify_grpc_status_header(text: Option<&str>) -> (outcome: CallOutcome)
    ensures
        outcome == header_outcome(
            match text {
                Some(t) => Some(t@),
                None => None,
            },
        ),
{
    let number: i32 = match text {
        Some(t) => match parse_i32(t) {
            Some(n) => n,
            None => 0,
        },
        // Missing: the status will be in the trailers
        None => 0,
    };
    match number {
        // Unavailable, Internal, ResourceExhausted, Unknown, DeadlineExceeded
        14 | 13 | 8 | 2 | 4 => CallOutcome::Failure,
        _ => CallOutcome::Success,
    }
}

/// Classifies the error that a call failed with.
pub fn classify_call_error(error: &CallError) -> (outcome: CallOutcome)
    ensures
        outcome == error_outcome(*error),
{
    match &error.cause {
        ErrorCause::Status(status) => classify_grpc_status(status),
        // Non-gRPC error, treat as failure
        _ => CallOutcome::Failure,
    }
}

/// Classify a gRPC HTTP response, given by its headers, for outlier detection.
/// gRPC errors are HTTP 200 with grpc-status in headers (Trailers-Only format).
pub fn classify_grpc_http_result(result: &Result<&HeaderMap, CallError>) -> (outcome: CallOutcome)
    ensures
        outcome == http_outcome(*result),
{
    match result {
        Ok(headers) => {
            proof {
                reveal_strlit("grpc-status");
            }
            match header_text(*headers, "grpc-status") {
                Some(text) => classify_grpc_status_header(Some(text.as_str())),
                None => classify_grpc_status_header(None),
            }
        },
        Err(error) => classify_call_error(error),
    }
}

/// No-op classifier that always returns Success.
pub fn noop_classify<R>(_result: &R) -> (outcome: CallOutcome)
    ensures
        outcome == CallOutcome::Success,
{
    CallOutcome::Success
}

/// Classifies call results into success/failure for outlier detection.
pub trait ResultClassifier<R> {
    /// How the result is judged.
    spec fn outcome(&self, result: &R) -> CallOutcome;

    fn classify(&self, result: &R) -> (outcome: CallOutcome)
        ensures
            outcome == self.outcome(result),
    ;
}

/// gRPC result classifier that classifies based on status codes.
#[derive(Debug, Clone, Copy)]
pub struct GrpcResultClassifier;

impl<Resp> ResultClassifier<Result<Resp, CallError>> for GrpcResultClassifier {
    open spec fn outcome(&self, result: &Result<Resp, CallError>) -> CallOutcome {
        match *result {
            Ok(_) => CallOutcome::Success,
            Err(error) => error_outcome(error),
        }
    }

    fn classify(&self, result: &Result<Resp, CallError>) -> (outcome: CallOutcome) {
        match result {
            Ok(_) => CallOutcome::Success,
            Err(error) => classify_call_error(error),
        }
    }
}

/// gRPC classifier that also reads the status out of the response headers.
#[derive(Debug, Clone, Copy)]
pub struct GrpcHttpClassifier;

impl<'a> ResultClassifier<Result<&'a HeaderMap, CallError>> for GrpcHttpClassifier {
    open spec fn outcome(&self, result: &Result<&'a HeaderMap, CallError>) -> CallOutcome {
        http_outcome(*result)
    }

    fn classify(&self, result: &Result<&'a HeaderMap, CallError>) -> (outcome: CallOutcome) {
        classify_grpc_http_result(result)
    }
}

/// Classifier for which every result is a success.
#[derive(Debug, Clone, Copy)]
pub struct NoopClassifier;

impl<R> ResultClassifier<R> for NoopClassifier {
    open spec fn outcome(&self, result: &R) -> CallOutcome {
        CallOutcome::Success
    }

    fn classify(&self, result: &R) -> (outcome: CallOutcome) {
        noop_classify(result)
    }
}

/// A status is judged alike by its code and by the number that stands for it in a header.
pub proof fn codes_and_numbers_agree(code: Code)
    ensures
        code_outcome(code) == number_outcome(code.number()),
{
}

/// A response that carries the number of a code as its `grpc-status` is judged as an error that is
/// a status with that code.
pub proof fn headers_and_errors_agree(status: Status, error: CallError, text: Seq<char>)
    requires
        error.cause == ErrorCause::Status(status),
        parsed_i32(text) matches Some(number) && number == status.code.number(),
    ensures
        header_outcome(Some(text)) == error_outcome(error),
{
    codes_and_numbers_agree(status.code);
}

/// A status counts against the endpoint exactly where its code says that the server is unavailable, has
/// failed, is exhausted, has failed for a reason unknown, or was too slow.
pub proof fn which_codes_count_against_an_endpoint(status: Status, outcome: CallOutcome)
    requires
        call_ensures(classify_grpc_status, (&status,), outcome),
    ensures
        outcome == CallOutcome::Failure <==> {
            ||| status.code == Code::Unavailable
            ||| status.code == Code::Internal
            ||| status.code == Code::ResourceExhausted
            ||| status.code == Code::Unknown
            ||| status.code == Code::DeadlineExceeded
        },
{
}

/// A response counts against the endpoint exactly where its `grpc-status` is the number of such a code;
/// one without the header, or with a header that is no number, does not.
pub proof fn which_headers_count_against_an_endpoint(
    text: &str,
    number: Option<i32>,
    outcome: CallOutcome,
    without: CallOutcome,
)
    requires
        call_ensures(parse_i32, (text,), number),
        call_ensures(classify_grpc_status_header, (Some(text),), outcome),
        call_ensures(classify_grpc_status_header, (None,), without),
    ensures
        outcome == CallOutcome::Failure <==> {
            ||| number == Some(14i32)
            ||| number == Some(13i32)
            ||| number == Some(8i32)
            ||| number == Some(2i32)
            ||| number == Some(4i32)
        },
        without == CallOutcome::Success,
{
}

/// An HTTP response is judged by its `grpc-status` header, as far as there is a readable one.
pub proof fn responses_are_judged_by_their_status_header(
    headers: &HeaderMap,
    text: &str,
    judged: CallOutcome,
    outcome: CallOutcome,
)
    requires
        call_ensures(classify_grpc_http_result, (&Ok(headers),), outcome),
        readable_headers(*headers).contains_key("grpc-status"@) ==> text@ == readable_headers(
            *headers,
        )["grpc-status"@],
        call_ensures(classify_grpc_status_header, (Some(text),), judged),
    ensures
        readable_headers(*headers).contains_key("grpc-status"@) ==> outcome == judged,
        !readable_headers(*headers).contains_key("grpc-status"@) ==> outcome
            == CallOutcome::Success,
{
}

/// An error is judged by its status where it is one, and counts against the endpoint where it is none,
/// whatever it was caused by. All classifiers of gRPC results agree on it; a response without an error
/// is a success to the one that does not look at headers.
pub proof fn errors_are_judged_by_their_status<Resp>(
    error: CallError,
    response: Resp,
    outcome: CallOutcome,
    of_http: CallOutcome,
    of_result: CallOutcome,
    of_response: CallOutcome,
    of_status: CallOutcome,
)
    requires
        call_ensures(classify_call_error, (&error,), outcome),
        call_ensures(
            <GrpcHttpClassifier as ResultClassifier<Result<&HeaderMap, CallError>>>::classify,
            (&GrpcHttpClassifier, &Err(error)),
            of_http,
        ),
        call_ensures(
            <GrpcResultClassifier as ResultClassifier<Result<Resp, CallError>>>::classify,
            (&GrpcResultClassifier, &Err(error)),
            of_result,
        ),
        call_ensures(
            <GrpcResultClassifier as ResultClassifier<Result<Resp, CallError>>>::classify,
            (&GrpcResultClassifier, &Ok(response)),
            of_response,
        ),
        error.cause matches ErrorCause::Status(status) ==> call_ensures(
            classify_grpc_status,
            (&status,),
            of_status,
        ),
    ensures
        outcome == (if error.cause is Status {
            of_status
        } else {
            CallOutcome::Failure
        }),
        of_http == outcome,
        of_result == outcome,
        of_response == CallOutcome::Success,
{
}

/// The classifier that does nothing finds no fault with anything.
pub proof fn nothing_is_a_failure_to_the_noop_classifier<R>(result: R, outcome: CallOutcome)
    requires
        call_ensures(
            <NoopClassifier as ResultClassifier<R>>::classify,
            (&NoopClassifier, &result),
            outcome,
        ),
    ensures
        outcome == CallOutcome::Success,
{
}

}
