//! Retry logic for transient connection failures.

use crate::status::{CallError, Code, ErrorCause, IoErrorKind};
use std::sync::atomic::{AtomicU64, Ordering};
use std::sync::Arc;
use vstd::prelude::*;
use vstd::string::*;

verus! {

/// Configuration for connection retry.
pub struct ConnectionRetryConfig {
    /// Maximum number of retries per request.
    pub max_retries: u32,
    /// Counter for tracking retries.
    pub retry_counter: Arc<AtomicU64>,
}

impl ConnectionRetryConfig {
    /// Whether the counter was made to start at zero.
    pub open spec fn counts_from_zero(&self) -> bool {
        call_ensures(AtomicU64::new, (0u64,), *self.retry_counter)
    }

    /// Whether one was added to the counter. Others may count on it too, so that its value is not
    /// tracked.
    pub open spec fn counted_one(&self) -> bool {
        exists|n: u64| #[trigger]
            call_ensures(AtomicU64::fetch_add, (&*self.retry_counter, 1u64, Ordering::Relaxed), n)
    }

    /// Creates a new retry config with the given maximum number of retries and a counter of its own,
    /// which starts at zero.
    pub fn new(max_retries: u32) -> (config: Self)
        ensures
            config.max_retries == max_retries,
            config.counts_from_zero(),
    {
        ConnectionRetryConfig { max_retries, retry_counter: Arc::new(AtomicU64::new(0)) }
    }

    /// Creates a retry config with a shared counter for tracking retries.
    pub fn with_counter(max_retries: u32, counter: Arc<AtomicU64>) -> (config: Self)
        ensures
            config == (ConnectionRetryConfig { max_retries, retry_counter: counter }),
    {
        ConnectionRetryConfig { max_retries, retry_counter: counter }
    }

    /// Counts a retry.
    fn count_retry(&self)
        ensures
            self.counted_one(),
    {
        let n = self.retry_counter.fetch_add(1, Ordering::Relaxed);
        assert(call_ensures(
            AtomicU64::fetch_add,
            (&*self.retry_counter, 1u64, Ordering::Relaxed),
            n,
        ));
    }
}

impl Clone for ConnectionRetryConfig {
    /// The clone counts on the same counter.
    fn clone(&self) -> (config: Self)
        ensures
            config == *self,
    {
        ConnectionRetryConfig {
            max_retries: self.max_retries,
            retry_counter: self.retry_counter.clone(),
        }
    }
}

/// Whether an error, taken by itself, says that the connection failed.
pub open spec fn is_connection_cause(cause: ErrorCause) -> bool {
    match cause {
        ErrorCause::Connect => true,
        ErrorCause::Status(status) => status.code == Code::Unavailable,
        ErrorCause::Io(kind) => {
            ||| kind == IoErrorKind::ConnectionRefused
            ||| kind == IoErrorKind::ConnectionReset
            ||| kind == IoErrorKind::ConnectionAborted
            ||| kind == IoErrorKind::BrokenPipe
        },
        ErrorCause::Other => false,
    }
}

/// Whether the connection failed: the error or one that it was caused by says so.
pub open spec fn connection_failed(error: CallError) -> bool {
    exists|i: int|
        0 <= i < error.chain().len() && is_connection_cause(#[trigger] error.chain()[i])
}

/// Whether a call is made again, after an outcome that was preceded by this many retries.
pub open spec fn retried<T>(outcome: Result<T, CallError>, attempts: int, max_retries: int) -> bool {
    match outcome {
        Ok(_) => false,
        Err(error) => connection_failed(error) && attempts < max_retries,
    }
}

/// The number of retries that are made from the given one on, where each call ends as listed.
pub open spec fn retries_from<T>(
    outcomes: Seq<Result<T, CallError>>,
    attempts: int,
    max_retries: int,
) -> int
    decreases outcomes.len() - attempts,
{
    if 0 <= attempts < outcomes.len() && retried(outcomes[attempts], attempts, max_retries) {
        retries_from(outcomes, attempts + 1, max_retries)
    } else {
        attempts
    }
}

/// Whether one error of the chain says that the connection failed.
fn connection_cause(cause: &ErrorCause) -> (is: bool)
    ensures
        is == is_connection_cause(*cause),
{
    match cause {
        ErrorCause::Connect => true,
        ErrorCause::Status(status) => status.code == Code::Unavailable,
        ErrorCause::Io(kind) => match kind {
            IoErrorKind::ConnectionRefused
            | IoErrorKind::ConnectionReset
            | IoErrorKind::ConnectionAborted
            | IoErrorKind::BrokenPipe => true,
            _ => false,
        },
        ErrorCause::Other => false,
    }
}

/// Check if an error is a connection error worth retrying: walks the error chain looking for
/// connection-related errors.
pub fn is_connection_error(error: &CallError) -> (is: bool)
    ensures
        is == connection_failed(*error),
{
    let ghost chain = error.chain();
    if connection_cause(&error.cause) {
        assert(is_connection_cause(chain[0]));
        return true;
    }
    let mut i: usize = 0;
    while i < error.sources.len()
        invariant
            chain == error.chain(),
            i <= error.sources.len(),
            forall|j: int| 0 <= j <= i ==> !is_connection_cause(#[trigger] chain[j]),
        decreases error.sources.len() - i,
    {
        assert(chain[i + 1] == error.sources[i as int]);
        if connection_cause(&error.sources[i]) {
            return true;
        }
        i = i + 1;
    }
    false
}

/// The error of a request whose body could not be read; such a request is never sent.
pub fn body_buffer_error(reason: &str) -> (error: CallError)
    ensures
        error.cause == ErrorCause::Other,
        error.sources@ == Seq::<ErrorCause>::empty(),
        error.message@ == "failed to buffer body: "@ + reason@,
{
    let mut message = "failed to buffer body: ".to_string();
    message.append(reason);
    CallError::new(ErrorCause::Other, message.as_str())
}

/// A retry service that retries on connection errors.
///
/// This service will retry requests that fail due to connection-level errors (e.g., connection
/// refused, connection reset) but not gRPC-level errors.
pub struct ConnectionRetryService<S> {
    inner: S,
    config: ConnectionRetryConfig,
}

impl<S> ConnectionRetryService<S> {
    /// The service that is called.
    pub closed spec fn spec_inner(&self) -> S {
        self.inner
    }

    /// How often to retry.
    pub closed spec fn spec_config(&self) -> ConnectionRetryConfig {
        self.config
    }

    /// Creates a new retry service wrapping the given inner service.
    pub fn new(inner: S, config: ConnectionRetryConfig) -> (service: Self)
        ensures
            service.spec_inner() == inner,
            service.spec_config() == config,
    {
        ConnectionRetryService { inner, config }
    }

    /// The inner service, which is ready when this one is.
    pub fn inner_mut(&mut self) -> (inner: &mut S)
        ensures
            *inner == old(self).spec_inner(),
            final(self).spec_inner() == *final(inner),
            final(self).spec_config() == old(self).spec_config(),
    {
        &mut self.inner
    }

    /// Starts on a request: a clone of the inner service to call, and what keeps the request and
    /// decides on each outcome whether to send it again.
    pub fn call<R>(&self, request: R) -> (started: (S, RetryAttempts<R>)) where S: Clone
        ensures
            cloned(self.spec_inner(), started.0),
            started.1.spec_request() == request,
            started.1.config() == self.spec_config(),
            started.1.attempts() == 0,
            started.1.well_formed(),
    {
        (
            self.inner.clone(),
            RetryAttempts { request, config: self.config.clone(), attempts: 0 },
        )
    }
}

impl<S: Clone> Clone for ConnectionRetryService<S> {
    fn clone(&self) -> (service: Self)
        ensures
            cloned(self.spec_inner(), service.spec_inner()),
            service.spec_config() == self.spec_config(),
    {
        ConnectionRetryService { inner: self.inner.clone(), config: self.config.clone() }
    }
}

/// The attempts to send one request.
pub struct RetryAttempts<R> {
    request: R,
    config: ConnectionRetryConfig,
    attempts: u32,
}

impl<R> RetryAttempts<R> {
    /// The request.
    pub closed spec fn spec_request(&self) -> R {
        self.request
    }

    /// How often to retry.
    pub closed spec fn config(&self) -> ConnectionRetryConfig {
        self.config
    }

    /// The number of retries so far.
    pub closed spec fn attempts(&self) -> int {
        self.attempts as int
    }

    /// There have been no more retries than allowed.
    pub open spec fn well_formed(&self) -> bool {
        0 <= self.attempts() <= self.config().max_retries
    }

    /// The request to send, whichever attempt this is.
    pub fn request(&self) -> (request: R) where R: Clone
        ensures
            cloned(self.spec_request(), request),
    {
        self.request.clone()
    }

    /// Decides on the outcome of a call: `None` where the request is to be sent again, which the
    /// counter counts; else what the request comes to.
    pub fn on_outcome<T>(&mut self, outcome: Result<T, CallError>) -> (result: Option<
        Result<T, CallError>,
    >)
        requires
            old(self).well_formed(),
        ensures
            final(self).well_formed(),
            final(self).config() == old(self).config(),
            final(self).spec_request() == old(self).spec_request(),
            retried(outcome, old(self).attempts(), old(self).config().max_retries as int) ==> {
                &&& result is None
                &&& final(self).attempts() == old(self).attempts() + 1
                &&& old(self).config().counted_one()
            },
            !retried(outcome, old(self).attempts(), old(self).config().max_retries as int) ==> {
                &&& result == Some(outcome)
                &&& final(self).attempts() == old(self).attempts()
            },
    {
        match outcome {
            Ok(response) => Some(Ok(response)),
            Err(error) => {
                if is_connection_error(&error) && self.attempts < self.config.max_retries {
                    self.config.count_retry();
                    self.attempts = self.attempts + 1;
                    None
                } else {
                    Some(Err(error))
                }
            },
        }
    }
}

/// Layer for adding connection retry to a service.
pub struct ConnectionRetryLayer {
    config: ConnectionRetryConfig,
}

impl ConnectionRetryLayer {
    /// How often to retry.
    pub closed spec fn spec_config(&self) -> ConnectionRetryConfig {
        self.config
    }

    /// Creates a new retry layer with the given config.
    pub fn new(config: ConnectionRetryConfig) -> (layer: Self)
        ensures
            layer.spec_config() == config,
    {
        ConnectionRetryLayer { config }
    }

    /// Wraps a service in a retry service.
    pub fn layer<S>(&self, inner: S) -> (service: ConnectionRetryService<S>)
        ensures
            service.spec_inner() == inner,
            service.spec_config() == self.spec_config(),
    {
        ConnectionRetryService::new(inner, self.config.clone())
    }
}

impl Clone for ConnectionRetryLayer {
    fn clone(&self) -> (layer: Self)
        ensures
            layer.spec_config() == self.spec_config(),
    {
        ConnectionRetryLayer { config: self.config.clone() }
    }
}

/// The retries come to an end: whatever the calls come to, after at most `max_retries` retries one
/// is not followed by another. Each retry follows a connection failure, and the last call succeeded,
/// failed otherwise, or was the last that is allowed.
pub proof fn retries_end<T>(outcomes: Seq<Result<T, CallError>>, max_retries: int)
    requires
        0 <= max_retries < outcomes.len(),
    ensures
        ({
            let n = retries_from(outcomes, 0, max_retries);
            &&& 0 <= n <= max_retries
            &&& forall|i: int|
                0 <= i < n ==> (#[trigger] outcomes[i]) is Err && connection_failed(
                    outcomes[i]->Err_0,
                )
            &&& !retried(outcomes[n], n, max_retries)
            &&& outcomes[n] is Err && connection_failed(outcomes[n]->Err_0) ==> n == max_retries
        }),
{
    lemma_retries_from(outcomes, 0, max_retries);
}

proof fn lemma_retries_from<T>(
    outcomes: Seq<Result<T, CallError>>,
    attempts: int,
    max_retries: int,
)
    requires
        0 <= attempts <= max_retries < outcomes.len(),
    ensures
        ({
            let n = retries_from(outcomes, attempts, max_retries);
            &&& attempts <= n <= max_retries
            &&& forall|i: int|
                attempts <= i < n ==> (#[trigger] outcomes[i]) is Err && connection_failed(
                    outcomes[i]->Err_0,
                )
            &&& !retried(outcomes[n], n, max_retries)
        }),
    decreases max_retries - attempts,
{
    if retried(outcomes[attempts], attempts, max_retries) {
        lemma_retries_from(outcomes, attempts + 1, max_retries);
    }
}

/// A request that succeeds is not sent again, nor one that fails for another reason than the
/// connection, nor any where no retries are allowed.
pub proof fn other_outcomes_are_final<T>(
    outcome: Result<T, CallError>,
    attempts: int,
    max_retries: int,
)
    requires
        ({
            ||| outcome is Ok
            ||| outcome matches Err(error) && !connection_failed(error)
            ||| max_retries <= attempts
        }),
    ensures
        !retried(outcome, attempts, max_retries),
{
}

/// An error that consists of gRPC statuses only, none of which is `Unavailable`, is never retried: of
/// whatever code they are, the error is given back, and it is no retry.
pub proof fn statuses_other_than_unavailable_are_never_retried<R, T>(
    error: CallError,
    retry: bool,
    result: Option<Result<T, CallError>>,
)
    requires
        error.cause matches ErrorCause::Status(status) && status.code != Code::Unavailable,
        forall|i: int|
            0 <= i < error.sources@.len() ==> ((#[trigger] error.sources@[i]) matches
                ErrorCause::Status(status) && status.code != Code::Unavailable),
    ensures
        call_ensures(is_connection_error, (&error,), retry) ==> !retry,
        forall|request: &mut RetryAttempts<R>| #[trigger]
            call_ensures(
                RetryAttempts::<R>::on_outcome::<T>,
                (request, Err(error)),
                result,
            ) ==> result == Some(Err::<T, CallError>(error)) && (*final(request)).attempts() == (
            *request).attempts(),
{
    let causes = seq![error.cause] + error.sources@;
    assert forall|i: int| 0 <= i < causes.len() implies (#[trigger] causes[i]) is Status
        && causes[i]->Status_0.code != Code::Unavailable by {
        if i > 0 {
            assert(causes[i] == error.sources@[i - 1]);
        }
    }
    other_errors_are_never_retried::<R, T>(error, causes, retry, result);
}

/// An error is final unless the connection failed: where neither it nor any error that it was caused by
/// is a failure to connect, a status `Unavailable`, or an I/O error other than a timeout or one of
/// unknown kind, it is given back, and it is no retry.
pub proof fn other_errors_are_never_retried<R, T>(
    error: CallError,
    causes: Seq<ErrorCause>,
    retry: bool,
    result: Option<Result<T, CallError>>,
)
    requires
        causes == seq![error.cause] + error.sources@,
        forall|i: int|
            0 <= i < causes.len() ==> match #[trigger] causes[i] {
                ErrorCause::Connect => false,
                ErrorCause::Status(status) => status.code != Code::Unavailable,
                ErrorCause::Io(kind) => kind == IoErrorKind::TimedOut || kind == IoErrorKind::Other,
                ErrorCause::Other => true,
            },
    ensures
        call_ensures(is_connection_error, (&error,), retry) ==> !retry,
        forall|request: &mut RetryAttempts<R>| #[trigger]
            call_ensures(
                RetryAttempts::<R>::on_outcome::<T>,
                (request, Err(error)),
                result,
            ) ==> result == Some(Err::<T, CallError>(error)) && (*final(request)).attempts() == (
            *request).attempts(),
{
    assert(error.chain() == causes);
}

/// A failed connection is retried as long as retries are left, wherever in the chain of causes it
/// stands: a failure to connect, a status `Unavailable`, a connection that was refused, reset or
/// aborted, or a broken pipe. Each retry is one attempt more. Once no retries are left, the error is
/// given back. A retry adds one to the counter.
pub proof fn failed_connections_are_retried<R, T>(
    error: CallError,
    at: int,
    retry: bool,
    result: Option<Result<T, CallError>>,
)
    requires
        -1 <= at < error.sources@.len(),
        match (if at < 0 {
            error.cause
        } else {
            error.sources@[at]
        }) {
            ErrorCause::Connect => true,
            ErrorCause::Status(status) => status.code == Code::Unavailable,
            ErrorCause::Io(kind) => kind != IoErrorKind::TimedOut && kind != IoErrorKind::Other,
            ErrorCause::Other => false,
        },
    ensures
        call_ensures(is_connection_error, (&error,), retry) ==> retry,
        forall|request: &mut RetryAttempts<R>| #[trigger]
            call_ensures(
                RetryAttempts::<R>::on_outcome::<T>,
                (request, Err(error)),
                result,
            ) ==> if (*request).attempts() < (*request).config().max_retries {
                &&& result is None
                &&& (*final(request)).attempts() == (*request).attempts() + 1
                &&& (*final(request)).spec_request() == (*request).spec_request()
                &&& exists|n: u64| #[trigger]
                    call_ensures(
                        AtomicU64::fetch_add,
                        (&*(*request).config().retry_counter, 1u64, Ordering::Relaxed),
                        n,
                    )
            } else {
                &&& result == Some(Err::<T, CallError>(error))
                &&& (*final(request)).attempts() == (*request).attempts()
            },
{
    assert(is_connection_cause(error.chain()[at + 1]));
}

/// A response is given back, whatever it is and however many retries are left.
pub proof fn responses_are_final<R, T>(response: T, result: Option<Result<T, CallError>>)
    ensures
        forall|request: &mut RetryAttempts<R>| #[trigger]
            call_ensures(
                RetryAttempts::<R>::on_outcome::<T>,
                (request, Ok(response)),
                result,
            ) ==> result == Some(Ok::<T, CallError>(response)) && (*final(request)).attempts() == (
            *request).attempts(),
{
}

/// Where every call fails to connect, the request is sent `max_retries` times more than once: each of
/// the first `max_retries` outcomes leads to another attempt, always with the request that was given,
/// and the one after them is what the request comes to.
pub proof fn a_request_is_sent_again_as_often_as_allowed<S: Clone, R, T>(
    service: ConnectionRetryService<S>,
    request: R,
    started: (S, RetryAttempts<R>),
    calls: Seq<&mut RetryAttempts<R>>,
    errors: Seq<CallError>,
    results: Seq<Option<Result<T, CallError>>>,
    n: int,
)
    requires
        call_ensures(ConnectionRetryService::<S>::call::<R>, (&service, request), started),
        calls.len() > 0 && *calls[0] == started.1,
        calls.len() == errors.len() == results.len(),
        forall|i: int| 0 <= i < calls.len() ==> (#[trigger] errors[i]).cause is Connect,
        forall|i: int|
            0 <= i < calls.len() ==> call_ensures(
                RetryAttempts::<R>::on_outcome::<T>,
                (#[trigger] calls[i], Err(errors[i])),
                results[i],
            ),
        forall|i: int|
            0 <= i < calls.len() - 1 ==> *final(#[trigger] calls[i]) == *calls[i + 1],
        0 <= n < calls.len(),
        n <= service.spec_config().max_retries,
    ensures
        (*calls[n]).spec_request() == request,
        (*calls[n]).attempts() == n,
        (*calls[n]).config() == service.spec_config(),
        results[n] is None <==> n < service.spec_config().max_retries,
        n == service.spec_config().max_retries ==> results[n] == Some(Err::<T, CallError>(errors[n])),
    decreases n,
{
    if n > 0 {
        a_request_is_sent_again_as_often_as_allowed(
            service,
            request,
            started,
            calls,
            errors,
            results,
            n - 1,
        );
        failed_connections_are_retried::<R, T>(errors[n - 1], -1, true, results[n - 1]);
        assert(errors[n - 1].cause is Connect);
        assert(call_ensures(
            RetryAttempts::<R>::on_outcome::<T>,
            (calls[n - 1], Err(errors[n - 1])),
            results[n - 1],
        ));
        assert(*final(calls[n - 1]) == *calls[n - 1 + 1]);
    }
    assert(errors[n].cause is Connect);
    failed_connections_are_retried::<R, T>(errors[n], -1, true, results[n]);
    assert(call_ensures(
        RetryAttempts::<R>::on_outcome::<T>,
        (calls[n], Err(errors[n])),
        results[n],
    ));
}

/// What a layer was configured with is what the requests of its services go by: the maximum number of
/// retries, and the counter that they are counted on.
pub proof fn the_configuration_reaches_the_requests<S: Clone, R>(
    max_retries: u32,
    counter: Arc<AtomicU64>,
    config: ConnectionRetryConfig,
    layer: ConnectionRetryLayer,
    inner: S,
    service: ConnectionRetryService<S>,
    request: R,
    started: (S, RetryAttempts<R>),
)
    requires
        call_ensures(ConnectionRetryConfig::with_counter, (max_retries, counter), config),
        call_ensures(ConnectionRetryLayer::new, (config,), layer),
        call_ensures(ConnectionRetryLayer::layer::<S>, (&layer, inner), service),
        call_ensures(ConnectionRetryService::<S>::call::<R>, (&service, request), started),
    ensures
        cloned(inner, started.0),
        started.1.spec_request() == request,
        started.1.attempts() == 0,
        started.1.config().max_retries == max_retries,
        started.1.config().retry_counter == counter,
{
}

/// Clones of a service and of its configuration go by the same maximum and count on the same counter.
pub proof fn clones_share_their_configuration<S: Clone>(
    config: ConnectionRetryConfig,
    config_copy: ConnectionRetryConfig,
    service: ConnectionRetryService<S>,
    service_copy: ConnectionRetryService<S>,
    layer: ConnectionRetryLayer,
    layer_copy: ConnectionRetryLayer,
)
    requires
        call_ensures(<ConnectionRetryConfig as Clone>::clone, (&config,), config_copy),
        call_ensures(<ConnectionRetryService<S> as Clone>::clone, (&service,), service_copy),
        call_ensures(<ConnectionRetryLayer as Clone>::clone, (&layer,), layer_copy),
    ensures
        config_copy.max_retries == config.max_retries,
        config_copy.retry_counter == config.retry_counter,
        service_copy.spec_config() == service.spec_config(),
        cloned(service.spec_inner(), service_copy.spec_inner()),
        layer_copy.spec_config() == layer.spec_config(),
{
}

/// The error of a request whose body could not be read says why, and is never retried.
pub proof fn unread_bodies_are_never_retried<R, T>(
    reason: &str,
    error: CallError,
    retry: bool,
    result: Option<Result<T, CallError>>,
)
    requires
        call_ensures(body_buffer_error, (reason,), error),
    ensures
        error.message@ == "failed to buffer body: "@ + reason@,
        call_ensures(is_connection_error, (&error,), retry) ==> !retry,
        forall|request: &mut RetryAttempts<R>| #[trigger]
            call_ensures(
                RetryAttempts::<R>::on_outcome::<T>,
                (request, Err(error)),
                result,
            ) ==> result == Some(Err::<T, CallError>(error)),
{
    let causes = seq![error.cause] + error.sources@;
    assert(causes =~= seq![ErrorCause::Other]);
    other_errors_are_never_retried::<R, T>(error, causes, retry, result);
}

/// A configuration has the maximum that it was given and a counter that starts at zero; what is sent in
/// each attempt is a clone of the request.
pub proof fn requests_are_kept_and_counters_start_at_zero<R: Clone>(
    max_retries: u32,
    config: ConnectionRetryConfig,
    attempts: RetryAttempts<R>,
    request: R,
)
    requires
        call_ensures(ConnectionRetryConfig::new, (max_retries,), config),
        call_ensures(RetryAttempts::<R>::request, (&attempts,), request),
    ensures
        config.max_retries == max_retries,
        call_ensures(AtomicU64::new, (0u64,), *config.retry_counter),
        cloned(attempts.spec_request(), request),
{
}

}
