//! Endpoints: their addresses, their load, and the outcomes of the calls made to them.

use crate::cluster::classify::CallOutcome;
use vstd::prelude::*;
use vstd::std_specs::convert::FromSpecImpl;
use vstd::string::*;

verus! {

/// The host part of an endpoint address.
#[derive(Debug, Clone, PartialEq, Eq, Hash)]
pub enum EndpointHost {
    /// The 32 bits of an IPv4 address, first octet in the highest bits.
    Ipv4(u32),
    /// The 128 bits of an IPv6 address, first segment in the highest bits.
    Ipv6(u128),
    Hostname(String),
}

/// A validated endpoint address extracted from xDS.
#[derive(Debug, Clone, PartialEq, Eq, Hash)]
pub struct EndpointAddress {
    /// The IP address or hostname
    pub host: EndpointHost,
    /// The port number
    pub port: u16,
}

/// A socket address.
#[derive(Debug, Clone, Copy, PartialEq, Eq, Structural)]
pub enum SocketAddress {
    V4 { ip: u32, port: u16 },
    V6 { ip: u128, port: u16, flowinfo: u32, scope_id: u32 },
}

impl From<SocketAddress> for EndpointAddress {
    fn from(addr: SocketAddress) -> (address: Self) {
        match addr {
            SocketAddress::V4 { ip, port } => EndpointAddress {
                host: EndpointHost::Ipv4(ip),
                port,
            },
            SocketAddress::V6 { ip, port, .. } => EndpointAddress {
                host: EndpointHost::Ipv6(ip),
                port,
            },
        }
    }
}

impl FromSpecImpl<SocketAddress> for EndpointAddress {
    open spec fn obeys_from_spec() -> bool {
        true
    }

    open spec fn from_spec(addr: SocketAddress) -> EndpointAddress {
        match addr {
            SocketAddress::V4 { ip, port } => EndpointAddress {
                host: EndpointHost::Ipv4(ip),
                port,
            },
            SocketAddress::V6 { ip, port, .. } => EndpointAddress {
                host: EndpointHost::Ipv6(ip),
                port,
            },
        }
    }
}

/// An endpoint address as a value to look up by: the kind of host, its bits, its name, the port.
pub type AddressKey = (u8, u128, String, u16);

impl EndpointAddress {
    /// The address as a mathematical value.
    pub open spec fn spec_key(self) -> (u8, u128, Seq<char>, u16) {
        match self.host {
            EndpointHost::Ipv4(bits) => (4, bits as u128, Seq::empty(), self.port),
            EndpointHost::Ipv6(bits) => (6, bits, Seq::empty(), self.port),
            EndpointHost::Hostname(name) => (0, 0, name@, self.port),
        }
    }

    /// Whether two addresses name the same host and port.
    pub open spec fn same_address(self, other: EndpointAddress) -> bool {
        &&& self.port == other.port
        &&& match (self.host, other.host) {
            (EndpointHost::Ipv4(a), EndpointHost::Ipv4(b)) => a == b,
            (EndpointHost::Ipv6(a), EndpointHost::Ipv6(b)) => a == b,
            (EndpointHost::Hostname(a), EndpointHost::Hostname(b)) => a@ == b@,
            _ => false,
        }
    }

    /// The address as a value to look up by.
    pub fn key(&self) -> (key: AddressKey)
        ensures
            key@ == self.spec_key(),
    {
        match &self.host {
            EndpointHost::Ipv4(bits) => {
                let key = (4u8, *bits as u128, String::new(), self.port);
                assert(key.2@ =~= Seq::<char>::empty());
                key
            },
            EndpointHost::Ipv6(bits) => {
                let key = (6u8, *bits, String::new(), self.port);
                assert(key.2@ =~= Seq::<char>::empty());
                key
            },
            EndpointHost::Hostname(name) => (0u8, 0u128, name.clone(), self.port),
        }
    }
}

/// Addresses have the same key exactly where they name the same host and port.
pub proof fn keys_tell_addresses_apart(a: EndpointAddress, b: EndpointAddress)
    ensures
        a.spec_key() == b.spec_key() <==> a.same_address(b),
{
}

/// The URI of a server, by its host and port, which is reached over TLS or in plain text.
pub fn server_uri(tls: bool, authority: &str) -> (uri: String)
    ensures
        uri@ == (if tls {
            "https://"@
        } else {
            "http://"@
        }) + authority@,
{
    let mut uri = if tls {
        "https://".to_string()
    } else {
        "http://".to_string()
    };
    uri.append(authority);
    uri
}

/// A source of load readings. Of two readings, the lower belongs to the less loaded source.
pub trait Load {
    /// What a load is measured in.
    type Metric;

    fn load(&self) -> Self::Metric;
}

/// The share of calls that failed: `failures` out of `total`, or none where no call was made.
#[derive(Debug, Clone, Copy, PartialEq, Eq, Structural)]
pub struct FailureRate {
    pub failures: u64,
    pub total: u64,
}

/// The counts kept of the calls made to an endpoint. They wrap around.
#[derive(Debug, Clone, Copy, PartialEq, Eq, Structural)]
pub struct CallCounts {
    pub successes: u64,
    pub failures: u64,
    pub consecutive_failures: u64,
}

/// One more, wrapping around.
pub open spec fn one_more(n: u64) -> u64 {
    if n == u64::MAX {
        0
    } else {
        (n + 1) as u64
    }
}

/// One less, wrapping around.
pub open spec fn one_less(n: u64) -> u64 {
    if n == 0 {
        u64::MAX
    } else {
        (n - 1) as u64
    }
}

impl CallCounts {
    /// The counts before any call.
    pub open spec fn zero() -> CallCounts {
        CallCounts { successes: 0, failures: 0, consecutive_failures: 0 }
    }

    /// The counts after one more call.
    pub open spec fn record(self, outcome: CallOutcome) -> CallCounts {
        match outcome {
            CallOutcome::Success => CallCounts {
                successes: one_more(self.successes),
                consecutive_failures: 0,
                ..self
            },
            CallOutcome::Failure => CallCounts {
                failures: one_more(self.failures),
                consecutive_failures: one_more(self.consecutive_failures),
                ..self
            },
        }
    }

    /// The counts after a sequence of calls.
    pub open spec fn record_all(self, outcomes: Seq<CallOutcome>) -> CallCounts
        decreases outcomes.len(),
    {
        if outcomes.len() == 0 {
            self
        } else {
            self.record_all(outcomes.drop_last()).record(outcomes.last())
        }
    }

    /// The number of calls is one that a counter can hold.
    pub open spec fn countable(self) -> bool {
        self.successes + self.failures <= u64::MAX
    }
}

/// How many of the calls ended in the given way.
pub open spec fn count_of(outcomes: Seq<CallOutcome>, outcome: CallOutcome) -> nat
    decreases outcomes.len(),
{
    if outcomes.len() == 0 {
        0
    } else {
        count_of(outcomes.drop_last(), outcome) + if outcomes.last() == outcome {
            1nat
        } else {
            0nat
        }
    }
}

/// How many calls have failed since the last one that did not.
pub open spec fn trailing_failures(outcomes: Seq<CallOutcome>) -> nat
    decreases outcomes.len(),
{
    if outcomes.len() == 0 || outcomes.last() == CallOutcome::Success {
        0
    } else {
        trailing_failures(outcomes.drop_last()) + 1
    }
}

/// Counted from zero, the counts are those of the calls made: how many succeeded, how many failed,
/// and how many have failed since the last that did not.
pub proof fn counts_are_those_of_the_calls(outcomes: Seq<CallOutcome>)
    requires
        outcomes.len() <= u64::MAX,
    ensures
        ({
            let counts = CallCounts::zero().record_all(outcomes);
            &&& counts.successes == count_of(outcomes, CallOutcome::Success)
            &&& counts.failures == count_of(outcomes, CallOutcome::Failure)
            &&& counts.consecutive_failures == trailing_failures(outcomes)
            &&& counts.successes + counts.failures == outcomes.len()
            &&& counts.consecutive_failures <= counts.failures
        }),
    decreases outcomes.len(),
{
    if outcomes.len() > 0 {
        counts_are_those_of_the_calls(outcomes.drop_last());
    }
}

/// A run of failures at the end of the calls is counted in full, whatever came before it.
pub proof fn a_run_of_failures_is_counted(outcomes: Seq<CallOutcome>, run: nat)
    requires
        run <= outcomes.len() <= u64::MAX,
        forall|i: int|
            outcomes.len() - run <= i < outcomes.len() ==> #[trigger] outcomes[i]
                == CallOutcome::Failure,
    ensures
        CallCounts::zero().record_all(outcomes).consecutive_failures >= run,
        run < outcomes.len() && outcomes[outcomes.len() - run - 1] == CallOutcome::Success
            ==> CallCounts::zero().record_all(outcomes).consecutive_failures == run,
        run == outcomes.len() ==> CallCounts::zero().record_all(outcomes).consecutive_failures
            == run,
    decreases run,
{
    counts_are_those_of_the_calls(outcomes);
    if run > 0 {
        let rest = outcomes.drop_last();
        assert(outcomes[outcomes.len() - 1] == CallOutcome::Failure);
        assert forall|i: int| rest.len() - (run - 1) <= i < rest.len() implies #[trigger] rest[i]
            == CallOutcome::Failure by {
            assert(rest[i] == outcomes[i]);
        }
        a_run_of_failures_is_counted(rest, (run - 1) as nat);
        counts_are_those_of_the_calls(rest);
    }
}

/// The counts of successes and of failures are the numbers of calls that ended so.
pub proof fn each_outcome_is_counted(outcomes: Seq<CallOutcome>)
    requires
        outcomes.len() <= u64::MAX,
    ensures
        ({
            let counts = CallCounts::zero().record_all(outcomes);
            &&& counts.successes == outcomes.filter(
                |o: CallOutcome| o == CallOutcome::Success,
            ).len()
            &&& counts.failures == outcomes.filter(|o: CallOutcome| o == CallOutcome::Failure).len()
        }),
    decreases outcomes.len(),
{
    reveal(Seq::filter);
    if outcomes.len() > 0 {
        each_outcome_is_counted(outcomes.drop_last());
        counts_are_those_of_the_calls(outcomes);
        counts_are_those_of_the_calls(outcomes.drop_last());
    }
}

/// Trait for tracking call outcomes for outlier detection.
///
/// Implemented by endpoint services to track success/failure counts.
/// Similar to the `Load` trait but for outlier detection purposes.
pub trait OutlierDetectionStats {
    /// The counts.
    spec fn counts(&self) -> CallCounts;

    /// Record a successful call.
    fn record_success(&mut self)
        ensures
            final(self).counts() == old(self).counts().record(CallOutcome::Success),
    ;

    /// Record a failed call.
    fn record_failure(&mut self)
        ensures
            final(self).counts() == old(self).counts().record(CallOutcome::Failure),
    ;

    /// Get the current failure rate.
    fn failure_rate(&self) -> (rate: FailureRate)
        requires
            self.counts().countable(),
        ensures
            rate.failures == self.counts().failures,
            rate.total == self.counts().successes + self.counts().failures,
    ;

    /// Get the total number of requests tracked.
    fn request_volume(&self) -> (volume: u64)
        requires
            self.counts().countable(),
        ensures
            volume == self.counts().successes + self.counts().failures,
    ;

    /// Get the current consecutive failure count.
    fn consecutive_failures(&self) -> (count: u64)
        ensures
            count == self.counts().consecutive_failures,
    ;

    /// Reset the stats (called when unejected).
    fn reset_stats(&mut self)
        ensures
            final(self).counts() == CallCounts::zero(),
    ;
}

/// An endpoint channel for communicating with a single gRPC endpoint,
/// with load reporting and outlier detection stats support.
pub struct EndpointChannel<S> {
    inner: S,
    in_flight: u64,
    counts: CallCounts,
}

impl<S> EndpointChannel<S> {
    /// The channel's transport.
    pub closed spec fn spec_inner(&self) -> S {
        self.inner
    }

    /// The number of calls in flight.
    pub closed spec fn in_flight(&self) -> u64 {
        self.in_flight
    }

    /// Creates a new `EndpointChannel`.
    /// This should be used by xDS implementations to construct channels to individual endpoints.
    pub fn new(inner: S) -> (channel: Self)
        ensures
            channel.spec_inner() == inner,
            channel.in_flight() == 0,
            channel.counts() == CallCounts::zero(),
    {
        EndpointChannel {
            inner,
            in_flight: 0,
            counts: CallCounts { successes: 0, failures: 0, consecutive_failures: 0 },
        }
    }

    /// The channel's transport.
    pub fn inner(&self) -> (inner: &S)
        ensures
            *inner == self.spec_inner(),
    {
        &self.inner
    }

    /// Whether the number of calls is one that a counter can hold.
    pub fn is_countable(&self) -> (countable: bool)
        ensures
            countable == self.counts().countable(),
    {
        self.counts.successes <= u64::MAX - self.counts.failures
    }

    /// Counts a call as in flight, from the moment it is made.
    pub fn call_started(&mut self)
        ensures
            final(self).in_flight() == one_more(old(self).in_flight()),
            final(self).counts() == old(self).counts(),
            final(self).spec_inner() == old(self).spec_inner(),
    {
        self.in_flight = self.in_flight.wrapping_add(1);
    }

    /// Counts a call as no longer in flight, when it completes or is given up.
    pub fn call_finished(&mut self)
        ensures
            final(self).in_flight() == one_less(old(self).in_flight()),
            final(self).counts() == old(self).counts(),
            final(self).spec_inner() == old(self).spec_inner(),
    {
        self.in_flight = self.in_flight.wrapping_sub(1);
    }
}

/// The start or the end of a call.
#[derive(Debug, Clone, Copy, PartialEq, Eq, Structural)]
pub enum CallEvent {
    Started,
    Finished,
}

/// The number of calls in flight after the events, wrapping around as a counter does.
pub open spec fn in_flight_after(in_flight: u64, events: Seq<CallEvent>) -> u64
    decreases events.len(),
{
    if events.len() == 0 {
        in_flight
    } else {
        let before = in_flight_after(in_flight, events.drop_last());
        match events.last() {
            CallEvent::Started => one_more(before),
            CallEvent::Finished => one_less(before),
        }
    }
}

/// How many more calls have started than finished.
pub open spec fn unfinished(events: Seq<CallEvent>) -> int
    decreases events.len(),
{
    if events.len() == 0 {
        0
    } else {
        unfinished(events.drop_last()) + match events.last() {
            CallEvent::Started => 1int,
            CallEvent::Finished => -1int,
        }
    }
}

/// The load is that of the calls that have started and not finished, in whatever order calls start
/// and finish; where all have finished, it is what it was before.
pub proof fn finished_calls_leave_no_load(in_flight: u64, events: Seq<CallEvent>)
    ensures
        in_flight_after(in_flight, events) == (in_flight + unfinished(events)) % (u64::MAX + 1),
        0 <= in_flight + unfinished(events) <= u64::MAX ==> in_flight_after(in_flight, events)
            == in_flight + unfinished(events),
        unfinished(events) == 0 ==> in_flight_after(in_flight, events) == in_flight,
    decreases events.len(),
{
    if events.len() > 0 {
        finished_calls_leave_no_load(in_flight, events.drop_last());
    }
}

impl<S> Load for EndpointChannel<S> {
    type Metric = u64;

    fn load(&self) -> (load: u64)
        ensures
            load == self.in_flight(),
    {
        self.in_flight
    }
}

impl<S> OutlierDetectionStats for EndpointChannel<S> {
    closed spec fn counts(&self) -> CallCounts {
        self.counts
    }

    fn record_success(&mut self)
        ensures
            final(self).in_flight() == old(self).in_flight(),
            final(self).spec_inner() == old(self).spec_inner(),
    {
        self.counts.successes = self.counts.successes.wrapping_add(1);
        // Reset consecutive failures on success
        self.counts.consecutive_failures = 0;
    }

    fn record_failure(&mut self)
        ensures
            final(self).in_flight() == old(self).in_flight(),
            final(self).spec_inner() == old(self).spec_inner(),
    {
        self.counts.failures = self.counts.failures.wrapping_add(1);
        self.counts.consecutive_failures = self.counts.consecutive_failures.wrapping_add(1);
    }

    fn failure_rate(&self) -> (rate: FailureRate) {
        FailureRate {
            failures: self.counts.failures,
            total: self.counts.successes + self.counts.failures,
        }
    }

    fn request_volume(&self) -> (volume: u64) {
        self.counts.successes + self.counts.failures
    }

    fn consecutive_failures(&self) -> (count: u64) {
        self.counts.consecutive_failures
    }

    fn reset_stats(&mut self)
        ensures
            final(self).in_flight() == old(self).in_flight(),
            final(self).spec_inner() == old(self).spec_inner(),
    {
        self.counts = CallCounts { successes: 0, failures: 0, consecutive_failures: 0 };
    }
}

/// A socket address keeps its kind, its bits and its port; nothing else of it matters.
pub proof fn socket_addresses_keep_host_and_port(
    addr: SocketAddress,
    address: EndpointAddress,
)
    requires
        call_ensures(<EndpointAddress as From<SocketAddress>>::from, (addr,), address),
    ensures
        match addr {
            SocketAddress::V4 { ip, port } => address.port == port && address.host
                == EndpointHost::Ipv4(ip),
            SocketAddress::V6 { ip, port, .. } => address.port == port && address.host
                == EndpointHost::Ipv6(ip),
        },
{
}

/// Addresses are told apart by their keys: by the port, by the kind of the host, by its bits and by its
/// name; addresses that agree in all of these have the same key.
pub proof fn keys_are_those_of_host_and_port(
    a: EndpointAddress,
    b: EndpointAddress,
    key_of_a: AddressKey,
    key_of_b: AddressKey,
)
    requires
        call_ensures(EndpointAddress::key, (&a,), key_of_a),
        call_ensures(EndpointAddress::key, (&b,), key_of_b),
    ensures
        key_of_a@ == key_of_b@ <==> a.port == b.port && match (a.host, b.host) {
            (EndpointHost::Ipv4(x), EndpointHost::Ipv4(y)) => x == y,
            (EndpointHost::Ipv6(x), EndpointHost::Ipv6(y)) => x == y,
            (EndpointHost::Hostname(x), EndpointHost::Hostname(y)) => x@ == y@,
            _ => false,
        },
        key_of_a@ == a.spec_key(),
{
}

/// A URI says how the server is reached, and then where.
pub proof fn a_uri_is_scheme_and_authority(tls: bool, authority: &str, uri: String)
    requires
        call_ensures(server_uri, (tls, authority), uri),
    ensures
        tls ==> uri@ == "https://"@ + authority@,
        !tls ==> uri@ == "http://"@ + authority@,
{
}

/// Recording a call counts that call and nothing else: a success is one success more and ends a run of
/// failures, a failure is one failure more and goes on with it.
pub proof fn each_call_is_recorded_once<S>(none: ())
    ensures
        forall|channel: &mut EndpointChannel<S>| #[trigger]
            call_ensures(
                <EndpointChannel<S> as OutlierDetectionStats>::record_success,
                (channel,),
                none,
            ) ==> {
                let (before, after) = ((*channel).counts(), (*final(channel)).counts());
                &&& after.successes == (before.successes + 1) % 0x1_0000_0000_0000_0000
                &&& after.failures == before.failures
                &&& after.consecutive_failures == 0
                &&& (*final(channel)).in_flight() == (*channel).in_flight()
                &&& (*final(channel)).spec_inner() == (*channel).spec_inner()
            },
        forall|channel: &mut EndpointChannel<S>| #[trigger]
            call_ensures(
                <EndpointChannel<S> as OutlierDetectionStats>::record_failure,
                (channel,),
                none,
            ) ==> {
                let (before, after) = ((*channel).counts(), (*final(channel)).counts());
                &&& after.successes == before.successes
                &&& after.failures == (before.failures + 1) % 0x1_0000_0000_0000_0000
                &&& after.consecutive_failures == (before.consecutive_failures + 1)
                    % 0x1_0000_0000_0000_0000
                &&& (*final(channel)).in_flight() == (*channel).in_flight()
                &&& (*final(channel)).spec_inner() == (*channel).spec_inner()
            },
        forall|channel: &mut EndpointChannel<S>| #[trigger]
            call_ensures(
                <EndpointChannel<S> as OutlierDetectionStats>::reset_stats,
                (channel,),
                none,
            ) ==> {
                let after = (*final(channel)).counts();
                &&& after.successes == 0
                &&& after.failures == 0
                &&& after.consecutive_failures == 0
                &&& (*final(channel)).in_flight() == (*channel).in_flight()
                &&& (*final(channel)).spec_inner() == (*channel).spec_inner()
            },
{
}

/// What a channel reports are the calls that were recorded: how many, how many of them failed, and how
/// many have failed since the last that did not. Before any call it reports none, and no load.
pub proof fn a_channel_reports_its_calls<S>(
    channel: EndpointChannel<S>,
    outcomes: Seq<CallOutcome>,
    rate: FailureRate,
    volume: u64,
    run: u64,
    inner: S,
    fresh: EndpointChannel<S>,
    load: u64,
)
    requires
        outcomes.len() <= u64::MAX,
        channel.counts() == CallCounts::zero().record_all(outcomes),
        call_ensures(
            <EndpointChannel<S> as OutlierDetectionStats>::failure_rate,
            (&channel,),
            rate,
        ),
        call_ensures(
            <EndpointChannel<S> as OutlierDetectionStats>::request_volume,
            (&channel,),
            volume,
        ),
        call_ensures(
            <EndpointChannel<S> as OutlierDetectionStats>::consecutive_failures,
            (&channel,),
            run,
        ),
        call_ensures(EndpointChannel::<S>::new, (inner,), fresh),
        call_ensures(<EndpointChannel<S> as Load>::load, (&fresh,), load),
    ensures
        volume == outcomes.len(),
        rate.total == outcomes.len(),
        rate.failures == outcomes.filter(|o: CallOutcome| o == CallOutcome::Failure).len(),
        run <= outcomes.len(),
        forall|i: int|
            outcomes.len() - run <= i < outcomes.len() ==> #[trigger] outcomes[i]
                == CallOutcome::Failure,
        run < outcomes.len() ==> outcomes[outcomes.len() - run - 1] == CallOutcome::Success,
        fresh.counts() == CallCounts::zero().record_all(Seq::empty()),
        fresh.spec_inner() == inner,
        load == 0,
{
    counts_are_those_of_the_calls(outcomes);
    each_outcome_is_counted(outcomes);
    lemma_trailing_failures(outcomes);
}

proof fn lemma_trailing_failures(outcomes: Seq<CallOutcome>)
    ensures
        ({
            let run = trailing_failures(outcomes);
            &&& run <= outcomes.len()
            &&& forall|i: int|
                outcomes.len() - run <= i < outcomes.len() ==> #[trigger] outcomes[i]
                    == CallOutcome::Failure
            &&& run < outcomes.len() ==> outcomes[outcomes.len() - run - 1] == CallOutcome::Success
        }),
    decreases outcomes.len(),
{
    if outcomes.len() > 0 && outcomes.last() != CallOutcome::Success {
        let rest = outcomes.drop_last();
        lemma_trailing_failures(rest);
        let run = trailing_failures(outcomes);
        assert forall|i: int| outcomes.len() - run <= i < outcomes.len() implies #[trigger] outcomes[i]
            == CallOutcome::Failure by {
            if i < rest.len() {
                assert(rest[i] == outcomes[i]);
            }
        }
        if run < outcomes.len() {
            assert(rest[rest.len() - (run - 1) - 1] == outcomes[outcomes.len() - run - 1]);
        }
    }
}

/// A call that starts is one call more in flight, and one that finishes is one fewer, so that finishing
/// undoes starting; the load is the number of calls in flight, and outcomes are recorded separately.
pub proof fn the_load_is_the_calls_in_flight<S>(before: u64, after: u64, none: ())
    ensures
        forall|channel: &mut EndpointChannel<S>|
            #![trigger call_ensures(EndpointChannel::<S>::call_started, (channel,), none)]
            call_ensures(EndpointChannel::<S>::call_started, (channel,), none) && call_ensures(
                <EndpointChannel<S> as Load>::load,
                (&*channel,),
                before,
            ) && call_ensures(<EndpointChannel<S> as Load>::load, (&*final(channel),), after) ==> {
                &&& after == (before + 1) % 0x1_0000_0000_0000_0000
                &&& (*final(channel)).counts() == (*channel).counts()
                &&& (*final(channel)).spec_inner() == (*channel).spec_inner()
            },
        forall|channel: &mut EndpointChannel<S>|
            #![trigger call_ensures(EndpointChannel::<S>::call_finished, (channel,), none)]
            call_ensures(EndpointChannel::<S>::call_finished, (channel,), none) && call_ensures(
                <EndpointChannel<S> as Load>::load,
                (&*channel,),
                before,
            ) && call_ensures(<EndpointChannel<S> as Load>::load, (&*final(channel),), after) ==> {
                &&& before == (after + 1) % 0x1_0000_0000_0000_0000
                &&& (*final(channel)).counts() == (*channel).counts()
                &&& (*final(channel)).spec_inner() == (*channel).spec_inner()
            },
{
}

}
