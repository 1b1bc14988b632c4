//! Errors for the load balancer.

use crate::status::{CallError, Code, ErrorCause, Status};
use vstd::prelude::*;
use vstd::std_specs::convert::FromSpecImpl;
use vstd::string::*;

verus! {

/// Errors produced by the load balancer.
#[derive(Debug, Clone, PartialEq, Eq)]
pub enum LbError {
    /// No ready endpoints available to serve the request.
    Unavailable,
    /// The selected lb channel was not ready.
    LbChannelNotReady,
    /// The selected lb channel returned an error.
    LbChannelError(CallError),
    /// Internal precondition violation (bug).
    Precondition(&'static str),
}

impl LbError {
    /// The error's text.
    pub open spec fn text(self) -> Seq<char> {
        match self {
            LbError::Unavailable => "no ready endpoints available"@,
            LbError::LbChannelNotReady => "lb channel not ready"@,
            LbError::LbChannelError(source) => "lb channel error: "@ + source.message@,
            LbError::Precondition(message) => "internal error: "@ + message@,
        }
    }

    /// Whether a caller is told the status in place of the error. An error of the channel that is a
    /// status is passed on as it is.
    pub open spec fn is_told_as(self, status: Status) -> bool {
        match self {
            LbError::Unavailable => status.is_plain(
                Code::Unavailable,
                "no ready endpoints available"@,
            ),
            LbError::LbChannelNotReady => status.is_plain(
                Code::Unavailable,
                "lb channel not ready"@,
            ),
            LbError::Precondition(message) => status.is_plain(Code::Internal, message@),
            LbError::LbChannelError(source) => match source.cause {
                ErrorCause::Status(s) => status == s,
                _ => status.is_plain(Code::Unknown, "lb channel error: "@ + source.message@),
            },
        }
    }

    /// The error's text.
    pub fn to_string(&self) -> (text: String)
        ensures
            text@ == self.text(),
    {
        match self {
            LbError::Unavailable => "no ready endpoints available".to_string(),
            LbError::LbChannelNotReady => "lb channel not ready".to_string(),
            LbError::LbChannelError(source) => {
                let mut text = "lb channel error: ".to_string();
                text.append(source.message.as_str());
                text
            },
            LbError::Precondition(message) => {
                let mut text = "internal error: ".to_string();
                text.append(message);
                text
            },
        }
    }
}

impl From<LbError> for Status {
    fn from(err: LbError) -> (status: Self)
        ensures
            err.is_told_as(status),
    {
        match err {
            LbError::Unavailable => Status::unavailable("no ready endpoints available"),
            LbError::LbChannelNotReady => Status::unavailable("lb channel not ready"),
            LbError::Precondition(message) => Status::internal(message),
            LbError::LbChannelError(source) => match source.cause {
                ErrorCause::Status(status) => status,
                _ => {
                    let mut text = "lb channel error: ".to_string();
                    text.append(source.message.as_str());
                    Status::unknown(text.as_str())
                },
            },
        }
    }
}

impl FromSpecImpl<LbError> for Status {
    /// The status is fixed by what it holds, not as a value: see `from`.
    open spec fn obeys_from_spec() -> bool {
        false
    }

    open spec fn from_spec(err: LbError) -> Status {
        arbitrary()
    }
}

/// A caller who is told a status learns what went wrong. Where the channel failed with a status, it is
/// that status, whole. Otherwise the message is the error's text, but for an internal error that of the
/// reason alone; the code says that the service is unavailable, that something is broken, or that the
/// cause is unknown.
pub proof fn errors_are_told_as_they_are(error: LbError, status: Status, text: String)
    requires
        call_ensures(<Status as From<LbError>>::from, (error,), status),
        call_ensures(LbError::to_string, (&error,), text),
    ensures
        match error {
            LbError::Unavailable => status.code == Code::Unavailable && status.message@ == text@
                && text@ == "no ready endpoints available"@,
            LbError::LbChannelNotReady => status.code == Code::Unavailable && status.message@
                == text@ && text@ == "lb channel not ready"@,
            LbError::Precondition(reason) => status.code == Code::Internal && status.message@
                == reason@ && text@ == "internal error: "@ + reason@,
            LbError::LbChannelError(source) => {
                &&& text@ == "lb channel error: "@ + source.message@
                &&& source.cause matches ErrorCause::Status(sent) ==> status == sent
                &&& !(source.cause is Status) ==> status.code == Code::Unknown && status.message@
                    == text@
            },
        },
        !(error matches LbError::LbChannelError(source) && source.cause is Status)
            ==> status.details@.len() == 0 && status.metadata@.len() == 0,
{
}

}
