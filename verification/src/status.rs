//! gRPC status codes and the errors that a call can end with.

use vstd::prelude::*;

verus! {

/// A gRPC status code.
#[derive(Debug, Clone, Copy, PartialEq, Eq, Structural)]
pub enum Code {
    /// The call succeeded.
    Okay,
    Cancelled,
    Unknown,
    InvalidArgument,
    DeadlineExceeded,
    NotFound,
    AlreadyExists,
    PermissionDenied,
    ResourceExhausted,
    FailedPrecondition,
    Aborted,
    OutOfRange,
    Unimplemented,
    Internal,
    Unavailable,
    DataLoss,
    Unauthenticated,
}

impl Code {
    /// The number that stands for the code in a `grpc-status` header.
    pub open spec fn number(self) -> int {
        match self {
            Code::Okay => 0,
            Code::Cancelled => 1,
            Code::Unknown => 2,
            Code::InvalidArgument => 3,
            Code::DeadlineExceeded => 4,
            Code::NotFound => 5,
            Code::AlreadyExists => 6,
            Code::PermissionDenied => 7,
            Code::ResourceExhausted => 8,
            Code::FailedPrecondition => 9,
            Code::Aborted => 10,
            Code::OutOfRange => 11,
            Code::Unimplemented => 12,
            Code::Internal => 13,
            Code::Unavailable => 14,
            Code::DataLoss => 15,
            Code::Unauthenticated => 16,
        }
    }
}

/// A gRPC status: a code and a message, and what else was sent along with them.
#[derive(Debug, Clone, PartialEq, Eq)]
pub struct Status {
    pub code: Code,
    pub message: String,
    /// Details of the error, in a form that only the application knows.
    pub details: Vec<u8>,
    /// The names and values of the metadata, in order.
    pub metadata: Vec<(String, Vec<u8>)>,
}

impl Status {
    /// Whether the status has this code and this message, and nothing else.
    pub open spec fn is_plain(self, code: Code, message: Seq<char>) -> bool {
        &&& self.code == code
        &&& self.message@ == message
        &&& self.details@ == Seq::<u8>::empty()
        &&& self.metadata@ == Seq::<(String, Vec<u8>)>::empty()
    }

    /// Creates a status with the given code and message.
    pub fn new(code: Code, message: &str) -> (status: Status)
        ensures
            status.is_plain(code, message@),
    {
        Status { code, message: message.to_string(), details: Vec::new(), metadata: Vec::new() }
    }

    /// The service is currently unavailable.
    pub fn unavailable(message: &str) -> (status: Status)
        ensures
            status.is_plain(Code::Unavailable, message@),
    {
        Status::new(Code::Unavailable, message)
    }

    /// Some invariant expected by the system is broken.
    pub fn internal(message: &str) -> (status: Status)
        ensures
            status.is_plain(Code::Internal, message@),
    {
        Status::new(Code::Internal, message)
    }

    /// An error of unknown cause.
    pub fn unknown(message: &str) -> (status: Status)
        ensures
            status.is_plain(Code::Unknown, message@),
    {
        Status::new(Code::Unknown, message)
    }
}

/// The kind of an I/O error.
#[derive(Debug, Clone, Copy, PartialEq, Eq, Structural)]
pub enum IoErrorKind {
    ConnectionRefused,
    ConnectionReset,
    ConnectionAborted,
    BrokenPipe,
    TimedOut,
    /// Any other kind.
    Other,
}

/// One error in a chain of errors.
#[derive(Debug, Clone, PartialEq, Eq)]
pub enum ErrorCause {
    /// The transport could not connect.
    Connect,
    /// A gRPC status.
    Status(Status),
    /// An I/O error.
    Io(IoErrorKind),
    /// An error of any other type.
    Other,
}

/// The error that a call failed with: the error itself, the errors it was caused by, outermost
/// first, and the text that describes it.
#[derive(Debug, Clone, PartialEq, Eq)]
pub struct CallError {
    pub cause: ErrorCause,
    pub sources: Vec<ErrorCause>,
    pub message: String,
}

impl CallError {
    /// The error followed by the errors that caused it.
    pub open spec fn chain(self) -> Seq<ErrorCause> {
        seq![self.cause] + self.sources@
    }

    /// Creates an error without a source.
    pub fn new(cause: ErrorCause, message: &str) -> (error: CallError)
        ensures
            error.cause == cause,
            error.sources@ == Seq::<ErrorCause>::empty(),
            error.message@ == message@,
    {
        CallError { cause, sources: Vec::new(), message: message.to_string() }
    }
}

/// A status has the code and the message that it was made with, and nothing else.
pub proof fn a_status_is_what_it_was_made_with(
    code: Code,
    message: &str,
    status: Status,
    unavailable: Status,
    internal: Status,
    unknown: Status,
)
    requires
        call_ensures(Status::new, (code, message), status),
        call_ensures(Status::unavailable, (message,), unavailable),
        call_ensures(Status::internal, (message,), internal),
        call_ensures(Status::unknown, (message,), unknown),
    ensures
        status.code == code,
        unavailable.code == Code::Unavailable,
        internal.code == Code::Internal,
        unknown.code == Code::Unknown,
        forall|s: Status|
            #![trigger s.message]
            s == status || s == unavailable || s == internal || s == unknown ==> s.message@
                == message@ && s.details@.len() == 0 && s.metadata@.len() == 0,
{
}

/// No two codes have the same number.
pub proof fn codes_have_numbers_of_their_own(a: Code, b: Code)
    ensures
        a.number() == b.number() ==> a == b,
        0 <= a.number() <= 16,
{
}

/// An error is what it was made with, and has no source.
pub proof fn an_error_is_what_it_was_made_with(cause: ErrorCause, message: &str, error: CallError)
    requires
        call_ensures(CallError::new, (cause, message), error),
    ensures
        error.cause == cause,
        error.message@ == message@,
        error.sources@.len() == 0,
        error.chain() == seq![cause],
{
    assert(error.chain() =~= seq![cause]);
}

}
