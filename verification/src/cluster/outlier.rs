//! Outlier detection: ejecting endpoints that fail too often, and restoring them in time.

use crate::cluster::classify::{CallOutcome, GrpcHttpClassifier, NoopClassifier, ResultClassifier};
use crate::cluster::ejection::{
    an_ejection_is_queued_to_end, an_ejection_lasts_its_time, ejections_stay_under_the_maximum,
    endpoints_are_passed_over_only_for_want_of_room, lemma_eject_well_formed,
    lemma_end_first_well_formed, lemma_queue_slot, queue_slot, round_is_exact,
    topology_changes_keep_the_state_well_formed, DetectorState,
};
use crate::endpoint::{a_run_of_failures_is_counted, counts_are_those_of_the_calls, CallCounts};
use crate::ext::queue::{enqueue, try_dequeue};
use crate::key::{clone_key, lawful_key, same_key};
use crate::sequences::{lemma_filter, lemma_filter_next};
use std::collections::{HashSet, VecDeque};
use std::hash::Hash;
use tokio::sync::mpsc;
use vstd::prelude::*;

verus! {

/// A point in time or a span of it, in nanoseconds. Points are counted from an origin of the
/// caller's choice.
pub type Nanos = u64;

/// Changes in outlier detection state.
#[derive(Debug, Clone, PartialEq, Eq)]
pub enum OutlierChange<K> {
    /// Endpoint was ejected due to high failure rate.
    Ejected(K),
    /// Endpoint was restored after ejection period expired.
    Unejected(K),
}

/// Configuration for outlier detection.
#[derive(Debug, Clone)]
pub struct OutlierDetectionConfig {
    /// Time between ejection analysis sweeps (not used: every poll analyses).
    pub interval: Nanos,
    /// Base duration for ejection.
    pub base_ejection_time: Nanos,
    /// Maximum ejection duration.
    pub max_ejection_time: Nanos,
    /// Maximum percentage of addresses that can be ejected.
    pub max_ejection_percent: u32,
    /// Consecutive failures threshold for ejection (0 = disabled).
    pub consecutive_failures_threshold: u64,
    /// Failure percentage threshold for ejection (0-100).
    pub failure_percentage_threshold: u32,
    /// Minimum request volume before failure percentage ejection is considered.
    pub failure_percentage_request_volume: u64,
}

impl OutlierDetectionConfig {
    /// How long an ejection lasts: the base duration, or the maximum where that is less.
    pub open spec fn ejection_time(self) -> nat {
        if self.base_ejection_time <= self.max_ejection_time {
            self.base_ejection_time as nat
        } else {
            self.max_ejection_time as nat
        }
    }
}

impl Default for OutlierDetectionConfig {
    fn default() -> (config: Self)
        ensures
            config.interval == 10 * 1_000_000_000,
            config.base_ejection_time == 30 * 1_000_000_000,
            config.max_ejection_time == 300 * 1_000_000_000,
            config.max_ejection_percent == 10,
            config.consecutive_failures_threshold == 5,
            config.failure_percentage_threshold == 50,
            config.failure_percentage_request_volume == 100,
    {
        OutlierDetectionConfig {
            interval: 10_000_000_000,
            base_ejection_time: 30_000_000_000,
            max_ejection_time: 300_000_000_000,
            max_ejection_percent: 10,
            consecutive_failures_threshold: 5,
            failure_percentage_threshold: 50,
            failure_percentage_request_volume: 100,
        }
    }
}

/// Whether the calls, each the receiver of a queue that was asked for its next message, gave these
/// messages, in order.
spec fn gave<K>(calls: Seq<&mut mpsc::UnboundedReceiver<K>>, messages: Seq<K>) -> bool {
    &&& messages.len() <= calls.len()
    &&& forall|i: int|
        0 <= i < messages.len() ==> call_ensures(
            try_dequeue::<K>,
            (#[trigger] calls[i],),
            Some(messages[i]),
        )
}

/// Whether the calls gave these messages, in order, and then none, so that the queue was empty. Only
/// where there are more messages than can be counted are some left.
pub closed spec fn drained<K>(
    calls: Seq<&mut mpsc::UnboundedReceiver<K>>,
    messages: Seq<K>,
) -> bool {
    &&& gave(calls, messages)
    &&& calls.len() > 0
    &&& messages.len() < u64::MAX ==> calls.len() == messages.len() + 1 && call_ensures(
        try_dequeue::<K>,
        (calls.last(),),
        None,
    )
}

/// Entry in the queue of ejections: when the endpoint is to be restored.
#[derive(Debug, Clone, PartialEq, Eq)]
struct EjectionEntry<K> {
    key: K,
    uneject_at: u128,
}

/// gRPC-specific outlier detector.
///
/// Manages ejection based on failure rates reported by endpoint services.
/// Classifies gRPC status codes to determine success/failure.
#[verifier::reject_recursive_types(K)]
pub struct GrpcOutlierDetector<K> {
    config: OutlierDetectionConfig,
    /// Requests to eject, from the checkers to `poll_changes`.
    ejection_tx: mpsc::UnboundedSender<K>,
    ejection_rx: mpsc::UnboundedReceiver<K>,
    /// The ejections that have not ended, soonest end first.
    ejection_queue: VecDeque<EjectionEntry<K>>,
    active_endpoints: HashSet<K>,
    ejected: HashSet<K>,
}

impl<K: Hash + Eq + Clone> GrpcOutlierDetector<K> {
    /// The detector's configuration.
    pub closed spec fn config(&self) -> OutlierDetectionConfig {
        self.config
    }

    /// Whether the two halves of the queue of requests were made together.
    pub closed spec fn has_a_queue_of_its_own(&self) -> bool {
        call_ensures(mpsc::unbounded_channel::<K>, (), (self.ejection_tx, self.ejection_rx))
    }

    /// Whether the checker's sender is a clone of the detector's, so that it feeds its queue.
    pub closed spec fn is_fed_by<C>(&self, checker: &EjectionChecker<K, C>) -> bool {
        cloned::<mpsc::UnboundedSender<K>>(self.ejection_tx, checker.tx)
    }

    /// The sending half of the queue of requests to eject.
    pub closed spec fn sender(&self) -> mpsc::UnboundedSender<K> {
        self.ejection_tx
    }

    /// The receiving half of the queue of requests to eject.
    pub closed spec fn requests(&self) -> mpsc::UnboundedReceiver<K> {
        self.ejection_rx
    }

    /// What the detector knows.
    pub closed spec fn state(&self) -> DetectorState<K> {
        DetectorState {
            active: self.active_endpoints@,
            ejected: self.ejected@,
            pending: self.ejection_queue@.map_values(
                |e: EjectionEntry<K>| (e.key, e.uneject_at as nat),
            ),
        }
    }

    /// Puts the endpoint under ejection until `until`.
    fn eject(&mut self, key: K, until: u128)
        requires
            lawful_key::<K>(),
            old(self).state().well_formed(),
            old(self).state().ejectable(key),
        ensures
            final(self).state() == old(self).state().eject(key, until as nat),
            final(self).state().well_formed(),
            final(self).config() == old(self).config(),
            final(self).requests() == old(self).requests(),
            final(self).sender() == old(self).sender(),
    {
        broadcast use vstd::std_specs::hash::group_hash_axioms;

        let ghost before = self.state();
        proof {
            lemma_eject_well_formed(before, key, until as nat);
            lemma_queue_slot(before.pending, until as nat);
        }
        let mut slot: usize = self.ejection_queue.len();
        assert(before.pending.take(slot as int) =~= before.pending);
        while slot > 0 && self.ejection_queue[slot - 1].uneject_at > until
            invariant
                self.state() == before,
                slot <= self.ejection_queue@.len(),
                queue_slot(before.pending, until as nat) == queue_slot(
                    before.pending.take(slot as int),
                    until as nat,
                ),
            decreases slot,
        {
            assert(before.pending.take(slot as int).drop_last() =~= before.pending.take(
                slot as int - 1,
            ));
            assert(before.pending[slot as int - 1].1 == self.ejection_queue@[slot as int
                - 1].uneject_at);
            slot = slot - 1;
        }
        assert(slot > 0 ==> before.pending[slot as int - 1].1 == self.ejection_queue@[slot as int
            - 1].uneject_at);
        assert(slot == queue_slot(before.pending, until as nat));
        let copy = clone_key(&key);
        self.ejected.insert(copy);
        self.ejection_queue.insert(slot, EjectionEntry { key, uneject_at: until });
        assert(self.state().pending =~= before.pending.insert(slot as int, (key, until as nat)));
    }

    /// Whether one more ejection leaves no more endpoints ejected than allowed.
    fn has_room(&self) -> (room: bool)
        requires
            lawful_key::<K>(),
        ensures
            room == self.state().has_room(self.config().max_ejection_percent as nat),
    {
        broadcast use vstd::std_specs::hash::group_hash_axioms;

        let ejected: u128 = self.ejected.len() as u128;
        let active: u128 = self.active_endpoints.len() as u128;
        let percent: u128 = self.config.max_ejection_percent as u128;
        proof {
            let p = percent as int;
            let n = active as int;
            assert(0 <= p * n <= 0x1_0000_0000 * 0x1_0000_0000_0000_0000) by (nonlinear_arith)
                requires
                    0 <= p <= 0x1_0000_0000,
                    0 <= n <= 0x1_0000_0000_0000_0000,
            ;
        }
        100 * (ejected + 1) <= percent * active
    }

    /// Drops the end of the endpoint's ejection from the queue.
    fn forget_end(&mut self, key: &K)
        requires
            lawful_key::<K>(),
        ensures
            final(self).state() == (DetectorState {
                pending: old(self).state().pending.filter(|e: (K, nat)| e.0 != *key),
                ..old(self).state()
            }),
            final(self).config() == old(self).config(),
            final(self).requests() == old(self).requests(),
            final(self).sender() == old(self).sender(),
    {
        let ghost pending = self.state().pending;
        let ghost keep = |e: (K, nat)| e.0 != *key;
        let ghost mut seen: int = 0;
        let mut i: usize = 0;
        assert(pending.take(0).filter(keep) =~= Seq::<(K, nat)>::empty()) by {
            reveal(Seq::filter);
        }
        assert(self.state().pending =~= pending.take(0).filter(keep) + pending.skip(0));
        while i < self.ejection_queue.len()
            invariant
                lawful_key::<K>(),
                keep == |e: (K, nat)| e.0 != *key,
                0 <= seen <= pending.len(),
                i == pending.take(seen).filter(keep).len(),
                self.state() == (DetectorState {
                    pending: pending.take(seen).filter(keep) + pending.skip(seen),
                    ..old(self).state()
                }),
                self.config() == old(self).config(),
                self.requests() == old(self).requests(),
                self.sender() == old(self).sender(),
            decreases pending.len() - seen,
        {
            let ghost before = self.state().pending;
            proof {
                assert(before.len() == self.ejection_queue@.len());
                assert(before[i as int] == pending[seen]);
                lemma_filter_next(pending, seen, keep);
            }
            if same_key(&self.ejection_queue[i].key, key) {
                let _ = self.ejection_queue.remove(i);
                assert(self.state().pending =~= before.remove(i as int));
            } else {
                i = i + 1;
            }
            proof {
                assert(self.state().pending =~= pending.take(seen + 1).filter(keep) + pending.skip(
                    seen + 1,
                ));
                seen = seen + 1;
            }
        }
        assert(self.state().pending.len() == self.ejection_queue@.len());
        assert(pending.take(seen) =~= pending);
        assert(self.state().pending =~= pending.filter(keep));
    }

    /// Acts on the requests to eject, then ends the ejections whose time has come.
    pub fn apply_requests(&mut self, requests: Vec<K>, now: Nanos) -> (changes: Vec<
        OutlierChange<K>,
    >)
        requires
            lawful_key::<K>(),
            old(self).state().well_formed(),
        ensures
            final(self).state().well_formed(),
            final(self).config() == old(self).config(),
            final(self).requests() == old(self).requests(),
            final(self).sender() == old(self).sender(),
            (final(self).state(), changes@) == old(self).state().round(
                requests@,
                now as nat,
                old(self).config().ejection_time(),
                old(self).config().max_ejection_percent as nat,
            ),
    {
        broadcast use vstd::std_specs::hash::group_hash_axioms;

        let ghost start = self.state();
        let ghost config = self.config();
        let ghost queue = self.requests();
        let ghost sender = self.sender();
        let max_percent = self.config.max_ejection_percent;
        let duration: u64 = if self.config.base_ejection_time <= self.config.max_ejection_time {
            self.config.base_ejection_time
        } else {
            self.config.max_ejection_time
        };
        let until: u128 = now as u128 + duration as u128;
        let mut changes: Vec<OutlierChange<K>> = Vec::new();
        let mut i: usize = 0;
        assert(requests@.take(0) =~= Seq::<K>::empty());
        while i < requests.len()
            invariant
                lawful_key::<K>(),
                self.state().well_formed(),
                self.config() == config,
                self.requests() == queue,
                self.sender() == sender,
                i <= requests@.len(),
                max_percent == config.max_ejection_percent,
                until == now + config.ejection_time(),
                (self.state(), changes@) == start.eject_all(
                    requests@.take(i as int),
                    until as nat,
                    max_percent as nat,
                ),
            decreases requests@.len() - i,
        {
            assert(requests@.take(i + 1).drop_last() =~= requests@.take(i as int));
            let key = &requests[i];
            // A request is void where the endpoint has left the topology or is ejected already, or
            // where too many endpoints would be ejected.
            if self.active_endpoints.contains(key) && !self.ejected.contains(key)
                && self.has_room() {
                self.eject(clone_key(key), until);
                changes.push(OutlierChange::Ejected(clone_key(key)));
            }
            i = i + 1;
        }
        assert(requests@.take(i as int) =~= requests@);
        let ghost middle = self.state();
        let ghost ejections = changes@;
        assert(ejections =~= ejections + Seq::<OutlierChange<K>>::empty());
        while self.ejection_queue.len() > 0 && self.ejection_queue[0].uneject_at <= now as u128
            invariant
                lawful_key::<K>(),
                self.state().well_formed(),
                self.config() == config,
                self.requests() == queue,
                self.sender() == sender,
                middle.uneject(now as nat).0 == self.state().uneject(now as nat).0,
                ejections + middle.uneject(now as nat).1 == changes@ + self.state().uneject(
                    now as nat,
                ).1,
            decreases self.ejection_queue@.len(),
        {
            let ghost before = self.state();
            let ghost made = changes@;
            proof {
                assert(before.pending[0].1 == self.ejection_queue@[0].uneject_at);
                lemma_end_first_well_formed(before);
            }
            match self.ejection_queue.pop_front() {
                Some(entry) => {
                    self.ejected.remove(&entry.key);
                    changes.push(OutlierChange::Unejected(entry.key));
                },
                None => {},
            }
            proof {
                assert(self.state().pending =~= before.pending.drop_first());
                assert(self.state() =~= before.end_first());
                let restored = seq![OutlierChange::Unejected(before.pending[0].0)];
                assert(changes@ =~= made + restored);
                assert(made + (restored + self.state().uneject(now as nat).1) =~= changes@
                    + self.state().uneject(now as nat).1);
            }
        }
        proof {
            if self.state().pending.len() > 0 {
                assert(self.state().pending[0].1 == self.ejection_queue@[0].uneject_at);
            }
            assert(self.state().uneject(now as nat).1 =~= Seq::empty());
            assert(changes@ + Seq::<OutlierChange<K>>::empty() =~= changes@);
        }
        changes
    }

    /// Takes the requests to eject that are queued, one after the other until there is none.
    fn drain_requests(&mut self) -> (requests: Vec<K>)
        ensures
            final(self).state() == old(self).state(),
            final(self).config() == old(self).config(),
            final(self).sender() == old(self).sender(),
            exists|calls: Seq<&mut mpsc::UnboundedReceiver<K>>|
                {
                    &&& #[trigger] drained(calls, requests@)
                    &&& *calls[0] == old(self).requests()
                    &&& forall|i: int|
                        0 <= i < calls.len() - 1 ==> *final(#[trigger] calls[i]) == *calls[i + 1]
                    &&& *final(calls.last()) == final(self).requests()
                },
    {
        let mut requests: Vec<K> = Vec::new();
        let mut budget: u64 = u64::MAX;
        let mut empty: bool = false;
        proof {
            assert(gave(Seq::<&mut mpsc::UnboundedReceiver<K>>::empty(), requests@));
        }
        while budget > 0 && !empty
            invariant
                self.state() == old(self).state(),
                self.config() == old(self).config(),
                self.sender() == old(self).sender(),
                !empty ==> budget == u64::MAX - requests@.len(),
                exists|calls: Seq<&mut mpsc::UnboundedReceiver<K>>|
                    {
                        &&& #[trigger] gave(calls, requests@)
                        &&& calls.len() == requests@.len() + if empty {
                            1int
                        } else {
                            0int
                        }
                        &&& calls.len() == 0 ==> self.requests() == old(self).requests()
                        &&& calls.len() > 0 ==> *calls[0] == old(self).requests()
                        &&& forall|i: int|
                            0 <= i < calls.len() - 1 ==> *final(#[trigger] calls[i]) == *calls[i
                                + 1]
                        &&& calls.len() > 0 ==> *final(calls.last()) == self.requests()
                        &&& empty ==> call_ensures(try_dequeue::<K>, (calls.last(),), None)
                    },
            decreases budget,
        {
            let ghost queue = self.requests();
            let ghost given = requests@;
            let message = try_dequeue(&mut self.ejection_rx);
            proof {
                let calls = choose|calls: Seq<&mut mpsc::UnboundedReceiver<K>>|
                    {
                        &&& #[trigger] gave(calls, given)
                        &&& calls.len() == given.len()
                        &&& calls.len() == 0 ==> queue == old(self).requests()
                        &&& calls.len() > 0 ==> *calls[0] == old(self).requests()
                        &&& forall|i: int|
                            0 <= i < calls.len() - 1 ==> *final(#[trigger] calls[i]) == *calls[i
                                + 1]
                        &&& calls.len() > 0 ==> *final(calls.last()) == queue
                    };
                let call = choose|call: &mut mpsc::UnboundedReceiver<K>|
                    *call == queue && *final(call) == self.requests() && #[trigger] call_ensures(
                        try_dequeue::<K>,
                        (call,),
                        message,
                    );
                assert(call_ensures(try_dequeue::<K>, (call,), message));
                let more = calls.push(call);
                if message is Some {
                    assert(gave(more, given.push(message->0)));
                } else {
                    assert(gave(more, given));
                }
            }
            match message {
                Some(key) => {
                    requests.push(key);
                },
                None => {
                    empty = true;
                },
            }
            budget = budget - 1;
        }
        proof {
            let calls = choose|calls: Seq<&mut mpsc::UnboundedReceiver<K>>|
                {
                    &&& #[trigger] gave(calls, requests@)
                    &&& calls.len() == requests@.len() + if empty {
                        1int
                    } else {
                        0int
                    }
                    &&& calls.len() > 0 ==> *calls[0] == old(self).requests()
                    &&& forall|i: int|
                        0 <= i < calls.len() - 1 ==> *final(#[trigger] calls[i]) == *calls[i + 1]
                    &&& calls.len() > 0 ==> *final(calls.last()) == self.requests()
                    &&& empty ==> call_ensures(try_dequeue::<K>, (calls.last(),), None)
                };
            assert(drained(calls, requests@));
        }
        requests
    }
}

/// The thresholds past which an endpoint is ejected.
pub struct Thresholds {
    pub consecutive_failures: nat,
    pub failure_percentage: nat,
    pub min_volume: nat,
}

impl Thresholds {
    /// Whether an endpoint with these counts is to be ejected: it has failed often enough in a row,
    /// or enough calls were made of which more than the given percentage failed.
    pub open spec fn crossed(self, failures: nat, volume: nat, consecutive: nat) -> bool {
        ||| self.consecutive_failures > 0 && consecutive >= self.consecutive_failures
        ||| volume >= self.min_volume && failures * 100 > self.failure_percentage * volume
    }
}

/// Whether the call, which is the sender of a queue that was given a message, gave it a clone of the
/// key.
pub closed spec fn handed<K: Clone>(call: &mut mpsc::UnboundedSender<K>, key: K) -> bool {
    exists|k: K, refused: Option<K>| #[trigger]
        call_ensures(enqueue::<K>, (call, k), refused) && cloned::<K>(key, k)
}

/// A cloneable handle for checking ejection conditions and enqueuing ejections.
///
/// This is designed to be cloned and passed into async blocks after each call.
/// It only holds the queue's sender, the thresholds and the classifier.
#[verifier::reject_recursive_types(K)]
pub struct EjectionChecker<K, C> {
    tx: mpsc::UnboundedSender<K>,
    consecutive_failures_threshold: u64,
    /// In percent.
    failure_percentage_threshold: u32,
    failure_percentage_min_volume: u64,
    classifier: C,
}

impl<K, C: Clone> Clone for EjectionChecker<K, C> {
    fn clone(&self) -> (copy: Self)
        ensures
            copy.thresholds() == self.thresholds(),
            copy.shares_queue(self),
            cloned::<C>(self.classifier(), copy.classifier()),
    {
        EjectionChecker {
            tx: self.tx.clone(),
            consecutive_failures_threshold: self.consecutive_failures_threshold,
            failure_percentage_threshold: self.failure_percentage_threshold,
            failure_percentage_min_volume: self.failure_percentage_min_volume,
            classifier: self.classifier.clone(),
        }
    }
}

impl<K, C> EjectionChecker<K, C> {
    /// The thresholds past which an endpoint is ejected.
    pub closed spec fn thresholds(&self) -> Thresholds {
        Thresholds {
            consecutive_failures: self.consecutive_failures_threshold as nat,
            failure_percentage: self.failure_percentage_threshold as nat,
            min_volume: self.failure_percentage_min_volume as nat,
        }
    }

    /// Whether the sender is a clone of the other checker's, so that both feed one queue.
    pub closed spec fn shares_queue(&self, other: &EjectionChecker<K, C>) -> bool {
        cloned::<mpsc::UnboundedSender<K>>(other.tx, self.tx)
    }

    /// The sending half of the queue that the checker feeds.
    pub closed spec fn sender(&self) -> mpsc::UnboundedSender<K> {
        self.tx
    }

    /// The classifier of results.
    pub closed spec fn classifier(&self) -> C {
        self.classifier
    }

    /// Classify the result and return the outcome.
    pub fn classify<R>(&self, result: &R) -> (outcome: CallOutcome) where C: ResultClassifier<R>
        ensures
            outcome == self.classifier().outcome(result),
    {
        self.classifier.classify(result)
    }

    /// Whether an endpoint with these counts is past a threshold.
    pub fn should_eject(&self, failures: u64, request_volume: u64, consecutive_failures: u64) -> (
        eject: bool)
        ensures
            eject == self.thresholds().crossed(
                failures as nat,
                request_volume as nat,
                consecutive_failures as nat,
            ),
    {
        // Consecutive failures check (if enabled)
        if self.consecutive_failures_threshold > 0 && consecutive_failures
            >= self.consecutive_failures_threshold {
            return true;
        }
        // Failure percentage check (if volume threshold met)
        proof {
            let p = self.failure_percentage_threshold as int;
            let v = request_volume as int;
            assert(0 <= p * v <= 0x1_0000_0000 * 0x1_0000_0000_0000_0000) by (nonlinear_arith)
                requires
                    0 <= p <= 0x1_0000_0000,
                    0 <= v <= 0x1_0000_0000_0000_0000,
            ;
        }
        request_volume >= self.failure_percentage_min_volume && failures as u128 * 100
            > self.failure_percentage_threshold as u128 * request_volume as u128
    }
}

impl<K: Clone, C> EjectionChecker<K, C> {
    /// Check if the endpoint should be ejected based on its stats: how many of its
    /// `request_volume` calls failed, and how many have failed since the last that did not.
    /// If any threshold is crossed, enqueues the key for ejection, once; else does nothing. Returns
    /// whether it did.
    pub fn check(
        &mut self,
        key: &K,
        failures: u64,
        request_volume: u64,
        consecutive_failures: u64,
    ) -> (requested: bool)
        ensures
            requested == old(self).thresholds().crossed(
                failures as nat,
                request_volume as nat,
                consecutive_failures as nat,
            ),
            final(self).thresholds() == old(self).thresholds(),
            final(self).classifier() == old(self).classifier(),
            requested ==> exists|call: &mut mpsc::UnboundedSender<K>|
                {
                    &&& #[trigger] handed(call, *key)
                    &&& *call == old(self).sender()
                    &&& *final(call) == final(self).sender()
                },
            !requested ==> *final(self) == *old(self),
    {
        let eject = self.should_eject(failures, request_volume, consecutive_failures);
        if eject {
            let copy = key.clone();
            assert(cloned::<K>(*key, copy));
            let ghost asked = copy;
            // A detector that is gone takes no requests.
            let refused = enqueue(&mut self.tx, copy);
            proof {
                let call = choose|call: &mut mpsc::UnboundedSender<K>|
                    *call == old(self).sender() && *final(call) == self.sender()
                        && #[trigger] call_ensures(enqueue::<K>, (call, asked), refused);
                assert(call_ensures(enqueue::<K>, (call, asked), refused));
                assert(handed(call, *key));
            }
        }
        eject
    }
}

/// Trait for outlier detection.
///
/// Implementations handle ejection/unejection of endpoints based on failure rates.
/// The actual stats tracking is done on the endpoint services via `OutlierDetectionStats`.
pub trait OutlierDetector {
    type Key: Clone;

    type Classifier;

    /// What every operation relies on and keeps.
    spec fn inv(&self) -> bool;

    /// Returns the current fleet size (number of active endpoints).
    fn fleet_size(&self) -> (size: usize)
        requires
            self.inv(),
    ;

    /// Returns a cloneable checker for use in async blocks.
    /// The checker includes the classifier for determining success/failure.
    fn checker(&self) -> (checker: EjectionChecker<Self::Key, Self::Classifier>)
        requires
            self.inv(),
    ;

    /// Poll for ejection/unejection changes (non-blocking).
    /// Called from poll_ready, with the current time.
    fn poll_changes(&mut self, now: Nanos) -> (changes: Vec<OutlierChange<Self::Key>>)
        requires
            old(self).inv(),
        ensures
            final(self).inv(),
    ;

    /// Called when an endpoint is added to topology.
    fn on_endpoint_added(&mut self, key: Self::Key)
        requires
            old(self).inv(),
        ensures
            final(self).inv(),
    ;

    /// Called when an endpoint is removed from topology.
    fn on_endpoint_removed(&mut self, key: &Self::Key)
        requires
            old(self).inv(),
        ensures
            final(self).inv(),
    ;
}

impl<K: Hash + Eq + Clone> GrpcOutlierDetector<K> {
    /// Creates a new gRPC outlier detector with the given configuration.
    pub fn new(config: OutlierDetectionConfig) -> (detector: Self)
        ensures
            lawful_key::<K>() ==> detector.inv(),
            detector.has_a_queue_of_its_own(),
            detector.config() == config,
            detector.state() == DetectorState::<K>::empty(),
    {
        let (ejection_tx, ejection_rx) = mpsc::unbounded_channel();
        let detector = GrpcOutlierDetector {
            config,
            ejection_tx,
            ejection_rx,
            ejection_queue: VecDeque::new(),
            active_endpoints: HashSet::new(),
            ejected: HashSet::new(),
        };
        assert(detector.state().pending =~= Seq::<(K, nat)>::empty());
        assert(call_ensures(
            mpsc::unbounded_channel::<K>,
            (),
            (detector.ejection_tx, detector.ejection_rx),
        ));
        detector
    }
}

impl<K: Hash + Eq + Clone> OutlierDetector for GrpcOutlierDetector<K> {
    type Key = K;

    type Classifier = GrpcHttpClassifier;

    open spec fn inv(&self) -> bool {
        lawful_key::<K>() && self.state().well_formed()
    }

    fn fleet_size(&self) -> (size: usize)
        ensures
            size == self.state().active.len(),
    {
        broadcast use vstd::std_specs::hash::group_hash_axioms;

        self.active_endpoints.len()
    }

    fn checker(&self) -> (checker: EjectionChecker<K, GrpcHttpClassifier>)
        ensures
            checker.thresholds() == (Thresholds {
                consecutive_failures: self.config().consecutive_failures_threshold as nat,
                failure_percentage: self.config().failure_percentage_threshold as nat,
                min_volume: self.config().failure_percentage_request_volume as nat,
            }),
            self.is_fed_by(&checker),
    {
        EjectionChecker {
            tx: self.ejection_tx.clone(),
            consecutive_failures_threshold: self.config.consecutive_failures_threshold,
            failure_percentage_threshold: self.config.failure_percentage_threshold,
            failure_percentage_min_volume: self.config.failure_percentage_request_volume,
            classifier: GrpcHttpClassifier,
        }
    }

    /// Whatever requests the checkers have queued, the detector takes them all and goes through one
    /// round of them.
    fn poll_changes(&mut self, now: Nanos) -> (changes: Vec<OutlierChange<K>>)
        ensures
            final(self).config() == old(self).config(),
            final(self).sender() == old(self).sender(),
            exists|requests: Seq<K>, calls: Seq<&mut mpsc::UnboundedReceiver<K>>|
                {
                    &&& #[trigger] drained(calls, requests)
                    &&& *calls[0] == old(self).requests()
                    &&& forall|i: int|
                        0 <= i < calls.len() - 1 ==> *final(#[trigger] calls[i]) == *calls[i + 1]
                    &&& *final(calls.last()) == final(self).requests()
                    &&& (final(self).state(), changes@) == old(self).state().round(
                        requests,
                        now as nat,
                        old(self).config().ejection_time(),
                        old(self).config().max_ejection_percent as nat,
                    )
                },
    {
        let requests = self.drain_requests();
        self.apply_requests(requests, now)
    }

    fn on_endpoint_added(&mut self, key: K)
        ensures
            final(self).config() == old(self).config(),
            final(self).sender() == old(self).sender(),
            final(self).requests() == old(self).requests(),
            final(self).state() == old(self).state().add_endpoint(key),
    {
        broadcast use vstd::std_specs::hash::group_hash_axioms;

        proof {
            topology_changes_keep_the_state_well_formed(self.state(), key);
        }
        self.active_endpoints.insert(key);
        assert(self.state() == old(self).state().add_endpoint(key));
    }

    fn on_endpoint_removed(&mut self, key: &K)
        ensures
            final(self).config() == old(self).config(),
            final(self).sender() == old(self).sender(),
            final(self).requests() == old(self).requests(),
            final(self).state() == old(self).state().remove_endpoint(*key),
    {
        broadcast use vstd::std_specs::hash::group_hash_axioms;

        proof {
            topology_changes_keep_the_state_well_formed(self.state(), *key);
        }
        self.active_endpoints.remove(key);
        self.ejected.remove(key);
        self.forget_end(key);
        assert(self.state() == old(self).state().remove_endpoint(*key));
    }
}

/// No-op outlier detector for when outlier detection is disabled.
#[verifier::reject_recursive_types(K)]
pub struct NoOutlierDetector<K> {
    /// Dummy sender of a queue that is never read.
    tx: mpsc::UnboundedSender<K>,
}

impl<K> NoOutlierDetector<K> {
    /// Whether the detector's sender is that of a queue made for it.
    pub closed spec fn has_a_queue_of_its_own(&self) -> bool {
        exists|rx: mpsc::UnboundedReceiver<K>| #[trigger]
            call_ensures(mpsc::unbounded_channel::<K>, (), (self.tx, rx))
    }

    /// Whether the checker's sender is a clone of the detector's.
    pub closed spec fn feeds_with<C>(&self, checker: &EjectionChecker<K, C>) -> bool {
        cloned::<mpsc::UnboundedSender<K>>(self.tx, checker.tx)
    }

    /// Creates a new no-op outlier detector.
    pub fn new() -> (detector: Self)
        ensures
            detector.has_a_queue_of_its_own(),
    {
        let (tx, _rx) = mpsc::unbounded_channel();
        let detector = NoOutlierDetector { tx };
        assert(call_ensures(mpsc::unbounded_channel::<K>, (), (detector.tx, _rx)));
        detector
    }
}

impl<K> Default for NoOutlierDetector<K> {
    fn default() -> (detector: Self)
        ensures
            detector.has_a_queue_of_its_own(),
    {
        NoOutlierDetector::new()
    }
}

impl<K: Clone> OutlierDetector for NoOutlierDetector<K> {
    type Key = K;

    type Classifier = NoopClassifier;

    open spec fn inv(&self) -> bool {
        true
    }

    fn fleet_size(&self) -> (size: usize)
        ensures
            size == 0,
    {
        0
    }

    /// The checker's thresholds are out of reach of any counts.
    fn checker(&self) -> (checker: EjectionChecker<K, NoopClassifier>)
        ensures
            forall|failures: nat, volume: nat, consecutive: nat|
                failures <= u64::MAX ==> !#[trigger] checker.thresholds().crossed(
                    failures,
                    volume,
                    consecutive,
                ),
            self.feeds_with(&checker),
    {
        EjectionChecker {
            tx: self.tx.clone(),
            consecutive_failures_threshold: 0,
            failure_percentage_threshold: u32::MAX,
            failure_percentage_min_volume: u64::MAX,
            classifier: NoopClassifier,
        }
    }

    fn poll_changes(&mut self, now: Nanos) -> (changes: Vec<OutlierChange<K>>)
        ensures
            *final(self) == *old(self),
            changes@ == Seq::<OutlierChange<K>>::empty(),
    {
        Vec::new()
    }

    fn on_endpoint_added(&mut self, _key: K)
        ensures
            *final(self) == *old(self),
    {
    }

    fn on_endpoint_removed(&mut self, _key: &K)
        ensures
            *final(self) == *old(self),
    {
    }
}

/// A checker goes by the configuration of its detector. Where the threshold of consecutive failures is
/// above zero, an endpoint that has failed at least that many times in a row is to be ejected, whatever
/// the number of its failures and of its calls.
pub proof fn enough_failures_in_a_row_eject<K: Hash + Eq + Clone>(
    config: OutlierDetectionConfig,
    detector: GrpcOutlierDetector<K>,
    checker: EjectionChecker<K, GrpcHttpClassifier>,
    failures: u64,
    request_volume: u64,
    consecutive_failures: u64,
    eject: bool,
)
    requires
        detector.config() == config,
        call_ensures(
            <GrpcOutlierDetector<K> as OutlierDetector>::checker,
            (&detector,),
            checker,
        ),
        call_ensures(
            EjectionChecker::<K, GrpcHttpClassifier>::should_eject,
            (&checker, failures, request_volume, consecutive_failures),
            eject,
        ),
        0 < config.consecutive_failures_threshold <= consecutive_failures,
    ensures
        eject,
{
}

/// Where enough calls were made, more than the given percentage of which failed, the endpoint is to be
/// ejected, whatever the failures in a row.
pub proof fn too_large_a_share_of_failures_ejects<K: Hash + Eq + Clone>(
    config: OutlierDetectionConfig,
    detector: GrpcOutlierDetector<K>,
    checker: EjectionChecker<K, GrpcHttpClassifier>,
    failures: u64,
    request_volume: u64,
    consecutive_failures: u64,
    eject: bool,
)
    requires
        detector.config() == config,
        call_ensures(
            <GrpcOutlierDetector<K> as OutlierDetector>::checker,
            (&detector,),
            checker,
        ),
        call_ensures(
            EjectionChecker::<K, GrpcHttpClassifier>::should_eject,
            (&checker, failures, request_volume, consecutive_failures),
            eject,
        ),
        request_volume >= config.failure_percentage_request_volume,
        failures * 100 > config.failure_percentage_threshold * request_volume,
    ensures
        eject,
{
}

/// An endpoint is left alone where neither threshold is crossed: it has failed less often in a row than
/// the threshold, or that threshold is zero; and too few calls were made, or no more than the given
/// percentage of them failed.
pub proof fn healthy_endpoints_are_left_alone<K: Hash + Eq + Clone>(
    config: OutlierDetectionConfig,
    detector: GrpcOutlierDetector<K>,
    checker: EjectionChecker<K, GrpcHttpClassifier>,
    failures: u64,
    request_volume: u64,
    consecutive_failures: u64,
    eject: bool,
)
    requires
        detector.config() == config,
        call_ensures(
            <GrpcOutlierDetector<K> as OutlierDetector>::checker,
            (&detector,),
            checker,
        ),
        call_ensures(
            EjectionChecker::<K, GrpcHttpClassifier>::should_eject,
            (&checker, failures, request_volume, consecutive_failures),
            eject,
        ),
        config.consecutive_failures_threshold == 0 || consecutive_failures
            < config.consecutive_failures_threshold,
        request_volume < config.failure_percentage_request_volume || failures * 100
            <= config.failure_percentage_threshold * request_volume,
    ensures
        !eject,
{
}

/// An endpoint that fails more, of as many calls, is no less to be ejected; nor is one that has failed
/// more often in a row.
pub proof fn more_failures_never_save_an_endpoint<K, C>(
    checker: EjectionChecker<K, C>,
    failures: u64,
    more_failures: u64,
    request_volume: u64,
    consecutive_failures: u64,
    more_consecutive_failures: u64,
    eject: bool,
    eject_later: bool,
)
    requires
        failures <= more_failures,
        consecutive_failures <= more_consecutive_failures,
        call_ensures(
            EjectionChecker::<K, C>::should_eject,
            (&checker, failures, request_volume, consecutive_failures),
            eject,
        ),
        call_ensures(
            EjectionChecker::<K, C>::should_eject,
            (&checker, more_failures, request_volume, more_consecutive_failures),
            eject_later,
        ),
    ensures
        eject ==> eject_later,
{
}

/// A check requests the ejection of its endpoint, and of no other, exactly where the endpoint's counts
/// say that it is to be ejected; else it leaves the checker as it is.
pub proof fn a_check_requests_what_the_counts_say<K: Clone, C>(
    checker: &EjectionChecker<K, C>,
    key: K,
    failures: u64,
    request_volume: u64,
    consecutive_failures: u64,
    eject: bool,
    requested: bool,
)
    requires
        call_ensures(
            EjectionChecker::<K, C>::should_eject,
            (checker, failures, request_volume, consecutive_failures),
            eject,
        ),
    ensures
        forall|check: &mut EjectionChecker<K, C>|
            *check == *checker && #[trigger] call_ensures(
                EjectionChecker::<K, C>::check,
                (check, &key, failures, request_volume, consecutive_failures),
                requested,
            ) ==> {
                &&& requested == eject
                &&& requested ==> exists|send: &mut mpsc::UnboundedSender<K>| #[trigger]
                    handed(send, key) && *send == checker.sender() && *final(send)
                        == (*final(check)).sender()
                &&& !requested ==> *final(check) == *checker
            },
{
}

/// Over any sequence of calls that ends in as many failures as the threshold, whatever came before
/// them, the endpoint is to be ejected.
pub proof fn a_run_of_failures_ejects<K: Hash + Eq + Clone>(
    config: OutlierDetectionConfig,
    detector: GrpcOutlierDetector<K>,
    checker: EjectionChecker<K, GrpcHttpClassifier>,
    outcomes: Seq<CallOutcome>,
    key: K,
    requested: bool,
)
    requires
        detector.config() == config,
        call_ensures(
            <GrpcOutlierDetector<K> as OutlierDetector>::checker,
            (&detector,),
            checker,
        ),
        0 < config.consecutive_failures_threshold <= outcomes.len() <= u64::MAX,
        forall|i: int|
            outcomes.len() - config.consecutive_failures_threshold <= i < outcomes.len()
                ==> #[trigger] outcomes[i] == CallOutcome::Failure,
    ensures
        ({
            let counts = CallCounts::zero().record_all(outcomes);
            let volume = (counts.successes + counts.failures) as u64;
            forall|check: &mut EjectionChecker<K, GrpcHttpClassifier>|
                *check == checker && #[trigger] call_ensures(
                    EjectionChecker::<K, GrpcHttpClassifier>::check,
                    (check, &key, counts.failures, volume, counts.consecutive_failures),
                    requested,
                ) ==> requested && exists|send: &mut mpsc::UnboundedSender<K>| #[trigger]
                    handed(send, key) && *send == checker.sender()
        }),
{
    let n = config.consecutive_failures_threshold as nat;
    counts_are_those_of_the_calls(outcomes);
    a_run_of_failures_is_counted(outcomes, n);
}

/// Whatever a checker is cloned from, its clone decides alike.
pub proof fn clones_of_a_checker_decide_alike<K, C: Clone>(
    checker: EjectionChecker<K, C>,
    copy: EjectionChecker<K, C>,
    failures: u64,
    request_volume: u64,
    consecutive_failures: u64,
    eject: bool,
    copy_ejects: bool,
)
    requires
        call_ensures(<EjectionChecker<K, C> as Clone>::clone, (&checker,), copy),
        call_ensures(
            EjectionChecker::<K, C>::should_eject,
            (&checker, failures, request_volume, consecutive_failures),
            eject,
        ),
        call_ensures(
            EjectionChecker::<K, C>::should_eject,
            (&copy, failures, request_volume, consecutive_failures),
            copy_ejects,
        ),
    ensures
        eject == copy_ejects,
        cloned::<mpsc::UnboundedSender<K>>(checker.sender(), copy.sender()),
{
}

/// What a detector starts from, and what it keeps: it has the configuration that it was given, knows no
/// endpoint and has ejected none; its checkers send to its own queue.
pub proof fn a_detector_starts_empty<K: Hash + Eq + Clone>(
    config: OutlierDetectionConfig,
    detector: GrpcOutlierDetector<K>,
    checker: EjectionChecker<K, GrpcHttpClassifier>,
    size: usize,
)
    requires
        call_ensures(GrpcOutlierDetector::<K>::new, (config,), detector),
        call_ensures(
            <GrpcOutlierDetector<K> as OutlierDetector>::checker,
            (&detector,),
            checker,
        ),
        call_ensures(<GrpcOutlierDetector<K> as OutlierDetector>::fleet_size, (&detector,), size),
    ensures
        detector.config() == config,
        detector.state().active == Set::<K>::empty(),
        detector.state().ejected == Set::<K>::empty(),
        detector.state().pending == Seq::<(K, nat)>::empty(),
        size == 0,
        call_ensures(
            mpsc::unbounded_channel::<K>,
            (),
            (detector.sender(), detector.requests()),
        ),
        cloned::<mpsc::UnboundedSender<K>>(detector.sender(), checker.sender()),
{
}

/// Endpoints are counted once each, from when they are added to when they are removed.
pub proof fn the_fleet_is_what_was_added_and_not_removed<K: Hash + Eq + Clone>(
    key: K,
    before: usize,
    after: usize,
)
    ensures
        forall|add: &mut GrpcOutlierDetector<K>, none: ()|
            #![trigger call_ensures(
                <GrpcOutlierDetector<K> as OutlierDetector>::on_endpoint_added,
                (add, key),
                none,
            )]
            {
                &&& (*add).inv()
                &&& call_ensures(
                    <GrpcOutlierDetector<K> as OutlierDetector>::on_endpoint_added,
                    (add, key),
                    none,
                )
                &&& call_ensures(
                    <GrpcOutlierDetector<K> as OutlierDetector>::fleet_size,
                    (&*add,),
                    before,
                )
                &&& call_ensures(
                    <GrpcOutlierDetector<K> as OutlierDetector>::fleet_size,
                    (&*final(add),),
                    after,
                )
            } ==> {
                &&& after == before + if (*add).state().active.contains(key) {
                    0int
                } else {
                    1int
                }
                &&& (*final(add)).state().active.contains(key)
                &&& (*final(add)).state().ejected == (*add).state().ejected
                &&& (*final(add)).state().pending == (*add).state().pending
                &&& (*final(add)).config() == (*add).config()
                &&& forall|k: K|
                    k != key ==> (#[trigger] (*final(add)).state().active.contains(k)
                        == (*add).state().active.contains(k))
            },
        forall|remove: &mut GrpcOutlierDetector<K>, none: ()|
            #![trigger call_ensures(
                <GrpcOutlierDetector<K> as OutlierDetector>::on_endpoint_removed,
                (remove, &key),
                none,
            )]
            {
                &&& (*remove).inv()
                &&& call_ensures(
                    <GrpcOutlierDetector<K> as OutlierDetector>::on_endpoint_removed,
                    (remove, &key),
                    none,
                )
                &&& call_ensures(
                    <GrpcOutlierDetector<K> as OutlierDetector>::fleet_size,
                    (&*remove,),
                    before,
                )
                &&& call_ensures(
                    <GrpcOutlierDetector<K> as OutlierDetector>::fleet_size,
                    (&*final(remove),),
                    after,
                )
            } ==> {
                &&& before == after + if (*remove).state().active.contains(key) {
                    1int
                } else {
                    0int
                }
                &&& !(*final(remove)).state().active.contains(key)
                &&& !(*final(remove)).state().ejected.contains(key)
                &&& (*final(remove)).config() == (*remove).config()
                &&& forall|k: K|
                    k != key ==> (#[trigger] (*final(remove)).state().active.contains(k)
                        == (*remove).state().active.contains(k))
                &&& forall|k: K|
                    k != key ==> (#[trigger] (*final(remove)).state().ejected.contains(k)
                        == (*remove).state().ejected.contains(k))
            },
{
}

/// Of the requests that a detector acts on, those are reported as ejected that are for an endpoint in
/// the topology that is not ejected, as long as no more than the configured percentage of the endpoints
/// is ejected. One is passed over only where its ejection would be one too many.
pub proof fn requests_are_acted_on_up_to_the_maximum<K: Hash + Eq + Clone>(
    requests: Vec<K>,
    now: Nanos,
    changes: Vec<OutlierChange<K>>,
    key: K,
)
    ensures
        forall|act: &mut GrpcOutlierDetector<K>|
            (*act).inv() && #[trigger] call_ensures(
                GrpcOutlierDetector::<K>::apply_requests,
                (act, requests, now),
                changes,
            ) ==> {
                let ejected = changes@.filter(|c: OutlierChange<K>| c is Ejected).len();
                let percent = (*act).config().max_ejection_percent;
                let (active, before) = ((*act).state().active, (*act).state().ejected);
                &&& changes@.contains(OutlierChange::Ejected(key)) ==> {
                    &&& requests@.contains(key)
                    &&& active.contains(key)
                    &&& !before.contains(key)
                    &&& 100 * (before.len() + ejected) <= percent * active.len()
                }
                &&& requests@.contains(key) && active.contains(key) && !before.contains(key)
                    && !changes@.contains(OutlierChange::Ejected(key)) ==> 100 * (before.len()
                    + ejected + 1) > percent * active.len()
                &&& changes@.no_duplicates()
                &&& (*final(act)).inv()
                &&& (*final(act)).config() == (*act).config()
            },
{
    assert forall|act: &mut GrpcOutlierDetector<K>|
        (*act).inv() && #[trigger] call_ensures(
            GrpcOutlierDetector::<K>::apply_requests,
            (act, requests, now),
            changes,
        ) implies {
        let ejected = changes@.filter(|c: OutlierChange<K>| c is Ejected).len();
        let percent = (*act).config().max_ejection_percent;
        let (active, before) = ((*act).state().active, (*act).state().ejected);
        &&& changes@.contains(OutlierChange::Ejected(key)) ==> {
            &&& requests@.contains(key)
            &&& active.contains(key)
            &&& !before.contains(key)
            &&& 100 * (before.len() + ejected) <= percent * active.len()
        }
        &&& requests@.contains(key) && active.contains(key) && !before.contains(key)
            && !changes@.contains(OutlierChange::Ejected(key)) ==> 100 * (before.len() + ejected
            + 1) > percent * active.len()
        &&& changes@.no_duplicates()
        &&& (*final(act)).inv()
        &&& (*final(act)).config() == (*act).config()
    } by {
        let s = (*act).state();
        let duration = (*act).config().ejection_time();
        let max = (*act).config().max_ejection_percent as nat;
        round_is_exact(s, requests@, now as nat, duration, max);
        ejections_stay_under_the_maximum(s, requests@, now as nat, duration, max);
        let is_ejection = |c: OutlierChange<K>| c is Ejected;
        lemma_filter(changes@, is_ejection);
        if changes@.contains(OutlierChange::Ejected(key)) {
            assert(changes@.filter(is_ejection).contains(OutlierChange::Ejected(key)));
        }
        if requests@.contains(key) && s.active.contains(key) && !s.ejected.contains(key) {
            endpoints_are_passed_over_only_for_want_of_room(
                s,
                requests@,
                now as nat,
                duration,
                max,
                key,
            );
        }
    }
}

/// However often a detector is polled, an endpoint whose ejection a poll has reported is restored by the
/// first poll that comes the configured time later, the base time or the maximum where that is less, and
/// by none before; nor is it reported as ejected again before. The configured time is above zero.
pub proof fn polls_restore_an_endpoint_on_time<K: Hash + Eq + Clone>(
    polls: Seq<&mut GrpcOutlierDetector<K>>,
    times: Seq<Nanos>,
    changes: Seq<Vec<OutlierChange<K>>>,
    key: K,
    n: int,
)
    requires
        polls.len() == times.len() == changes.len(),
        1 <= n < polls.len(),
        (*polls[0]).inv(),
        (*polls[0]).config().base_ejection_time > 0,
        (*polls[0]).config().max_ejection_time > 0,
        forall|i: int|
            0 <= i < polls.len() ==> call_ensures(
                <GrpcOutlierDetector<K> as OutlierDetector>::poll_changes,
                (#[trigger] polls[i], times[i]),
                changes[i],
            ),
        forall|i: int|
            0 <= i < polls.len() - 1 ==> *final(#[trigger] polls[i]) == *polls[i + 1],
        changes[0]@.contains(OutlierChange::Ejected(key)),
        forall|i: int|
            1 <= i < n ==> (#[trigger] times[i] < times[0] + (*polls[0]).config().base_ejection_time
                && times[i] < times[0] + (*polls[0]).config().max_ejection_time),
    ensures
        changes[n]@.contains(OutlierChange::Unejected(key)) <==> {
            ||| times[n] >= times[0] + (*polls[0]).config().base_ejection_time
            ||| times[n] >= times[0] + (*polls[0]).config().max_ejection_time
        },
        !changes[n]@.contains(OutlierChange::Ejected(key)),
{
    let end = times[0] as nat + (*polls[0]).config().ejection_time();
    lemma_polls_keep_an_ejection(polls, times, changes, key, end, n);
    assert(call_ensures(
        <GrpcOutlierDetector<K> as OutlierDetector>::poll_changes,
        (polls[n], times[n]),
        changes[n],
    ));
    lemma_a_poll_is_a_round::<K>(times[n], changes[n]);
    let s = (*polls[n]).state();
    let requests = choose|requests: Seq<K>|
        ((*final(polls[n])).state(), changes[n]@) == #[trigger] s.round(
            requests,
            times[n] as nat,
            (*polls[n]).config().ejection_time(),
            (*polls[n]).config().max_ejection_percent as nat,
        );
    an_ejection_lasts_its_time(
        s,
        key,
        end,
        Seq::empty(),
        requests,
        times[n] as nat,
        (*polls[n]).config().ejection_time(),
        (*polls[n]).config().max_ejection_percent as nat,
    );
}

proof fn lemma_a_poll_is_a_round<K: Hash + Eq + Clone>(
    now: Nanos,
    changes: Vec<OutlierChange<K>>,
)
    ensures
        forall|poll: &mut GrpcOutlierDetector<K>| #[trigger]
            call_ensures(
                <GrpcOutlierDetector<K> as OutlierDetector>::poll_changes,
                (poll, now),
                changes,
            ) ==> {
                &&& (*final(poll)).inv()
                &&& (*final(poll)).config() == (*poll).config()
                &&& exists|requests: Seq<K>|
                    ((*final(poll)).state(), changes@) == #[trigger] (*poll).state().round(
                        requests,
                        now as nat,
                        (*poll).config().ejection_time(),
                        (*poll).config().max_ejection_percent as nat,
                    )
            },
{
}

proof fn lemma_polls_keep_an_ejection<K: Hash + Eq + Clone>(
    polls: Seq<&mut GrpcOutlierDetector<K>>,
    times: Seq<Nanos>,
    changes: Seq<Vec<OutlierChange<K>>>,
    key: K,
    end: nat,
    n: int,
)
    requires
        polls.len() == times.len() == changes.len(),
        1 <= n < polls.len(),
        (*polls[0]).inv(),
        end == times[0] as nat + (*polls[0]).config().ejection_time(),
        end > times[0],
        forall|i: int|
            0 <= i < polls.len() ==> call_ensures(
                <GrpcOutlierDetector<K> as OutlierDetector>::poll_changes,
                (#[trigger] polls[i], times[i]),
                changes[i],
            ),
        forall|i: int|
            0 <= i < polls.len() - 1 ==> *final(#[trigger] polls[i]) == *polls[i + 1],
        changes[0]@.contains(OutlierChange::Ejected(key)),
        forall|i: int| 1 <= i < n ==> #[trigger] times[i] < end,
    ensures
        (*polls[n]).inv(),
        (*polls[n]).config() == (*polls[0]).config(),
        (*polls[n]).state().pending.contains((key, end)),
    decreases n,
{
    let m = n - 1;
    if m > 0 {
        lemma_polls_keep_an_ejection(polls, times, changes, key, end, m);
    }
    assert(call_ensures(
        <GrpcOutlierDetector<K> as OutlierDetector>::poll_changes,
        (polls[m], times[m]),
        changes[m],
    ));
    lemma_a_poll_is_a_round::<K>(times[m], changes[m]);
    assert(*final(polls[m]) == *polls[m + 1]);
    let s = (*polls[m]).state();
    let duration = (*polls[m]).config().ejection_time();
    let max = (*polls[m]).config().max_ejection_percent as nat;
    let requests = choose|requests: Seq<K>|
        ((*final(polls[m])).state(), changes[m]@) == #[trigger] s.round(
            requests,
            times[m] as nat,
            duration,
            max,
        );
    round_is_exact(s, requests, times[m] as nat, duration, max);
    if m == 0 {
        an_ejection_is_queued_to_end(s, requests, times[0] as nat, duration, max, key);
    } else {
        assert(times[m] < end);
    }
}

/// Without outlier detection nothing is ever ejected: no endpoint is counted, no poll reports a change,
/// and no counts lead to a request.
pub proof fn without_detection_nothing_happens<K: Clone>(
    detector: NoOutlierDetector<K>,
    checker: EjectionChecker<K, NoopClassifier>,
    failures: u64,
    request_volume: u64,
    consecutive_failures: u64,
    eject: bool,
    size: usize,
    now: Nanos,
    changes: Vec<OutlierChange<K>>,
)
    requires
        call_ensures(
            <NoOutlierDetector<K> as OutlierDetector>::checker,
            (&detector,),
            checker,
        ),
        call_ensures(
            EjectionChecker::<K, NoopClassifier>::should_eject,
            (&checker, failures, request_volume, consecutive_failures),
            eject,
        ),
        call_ensures(<NoOutlierDetector<K> as OutlierDetector>::fleet_size, (&detector,), size),
    ensures
        !eject,
        size == 0,
        forall|poll: &mut NoOutlierDetector<K>| #[trigger]
            call_ensures(
                <NoOutlierDetector<K> as OutlierDetector>::poll_changes,
                (poll, now),
                changes,
            ) ==> changes@.len() == 0 && *final(poll) == *poll,
{
}

/// What is handed to a queue for an endpoint is a clone of the endpoint's key.
pub(crate) proof fn what_is_handed_is_the_key<K: Clone>(
    send: &mut mpsc::UnboundedSender<K>,
    key: K,
)
    requires
        handed(send, key),
    ensures
        exists|k: K, refused: Option<K>| #[trigger]
            call_ensures(enqueue::<K>, (send, k), refused) && cloned::<K>(key, k),
{
}

/// A queue is drained in order and to its end: the calls gave the messages, each in its turn, and one
/// call more gave none, unless there are more messages than can be counted.
pub(crate) proof fn a_queue_is_drained_to_its_end<K>(
    calls: Seq<&mut mpsc::UnboundedReceiver<K>>,
    messages: Seq<K>,
)
    requires
        drained(calls, messages),
    ensures
        messages.len() <= calls.len(),
        forall|i: int|
            0 <= i < messages.len() ==> call_ensures(
                try_dequeue::<K>,
                (#[trigger] calls[i],),
                Some(messages[i]),
            ),
        messages.len() < u64::MAX ==> calls.len() == messages.len() + 1 && call_ensures(
            try_dequeue::<K>,
            (calls.last(),),
            None,
        ),
{
}

/// A checker judges results as its classifier does.
pub proof fn a_checker_judges_by_its_classifier<K, R, C: ResultClassifier<R>>(
    checker: EjectionChecker<K, C>,
    result: R,
    outcome: CallOutcome,
)
    requires
        call_ensures(EjectionChecker::<K, C>::classify::<R>, (&checker, &result), outcome),
    ensures
        outcome == checker.classifier().outcome(&result),
{
}

/// A poll acts on all that is queued: whatever it takes from the queue until that is empty, an endpoint
/// among it that is in the topology and not ejected is reported as ejected, unless its ejection would be
/// one too many; and no endpoint is that is not among it.
pub proof fn a_poll_acts_on_all_that_is_queued<K: Hash + Eq + Clone>(
    now: Nanos,
    changes: Vec<OutlierChange<K>>,
    key: K,
)
    ensures
        forall|poll: &mut GrpcOutlierDetector<K>|
            (*poll).inv() && #[trigger] call_ensures(
                <GrpcOutlierDetector<K> as OutlierDetector>::poll_changes,
                (poll, now),
                changes,
            ) ==> exists|requests: Seq<K>, calls: Seq<&mut mpsc::UnboundedReceiver<K>>| #[trigger]
                drained(calls, requests) && {
                    let ejected = changes@.filter(|c: OutlierChange<K>| c is Ejected).len();
                    let percent = (*poll).config().max_ejection_percent;
                    let (active, before) = ((*poll).state().active, (*poll).state().ejected);
                    &&& *calls[0] == (*poll).requests()
                    &&& forall|i: int|
                        0 <= i < calls.len() - 1 ==> *final(#[trigger] calls[i]) == *calls[i + 1]
                    &&& *final(calls.last()) == (*final(poll)).requests()
                    &&& changes@.contains(OutlierChange::Ejected(key)) ==> requests.contains(key)
                        && active.contains(key) && !before.contains(key) && 100 * (before.len()
                        + ejected) <= percent * active.len()
                    &&& requests.contains(key) && active.contains(key) && !before.contains(key)
                        && !changes@.contains(OutlierChange::Ejected(key)) ==> 100 * (before.len()
                        + ejected + 1) > percent * active.len()
                },
{
    assert forall|poll: &mut GrpcOutlierDetector<K>|
        (*poll).inv() && #[trigger] call_ensures(
            <GrpcOutlierDetector<K> as OutlierDetector>::poll_changes,
            (poll, now),
            changes,
        ) implies exists|requests: Seq<K>, calls: Seq<&mut mpsc::UnboundedReceiver<K>>| #[trigger]
        drained(calls, requests) && {
            let ejected = changes@.filter(|c: OutlierChange<K>| c is Ejected).len();
            let percent = (*poll).config().max_ejection_percent;
            let (active, before) = ((*poll).state().active, (*poll).state().ejected);
            &&& *calls[0] == (*poll).requests()
            &&& forall|i: int|
                0 <= i < calls.len() - 1 ==> *final(#[trigger] calls[i]) == *calls[i + 1]
            &&& *final(calls.last()) == (*final(poll)).requests()
            &&& changes@.contains(OutlierChange::Ejected(key)) ==> requests.contains(key)
                && active.contains(key) && !before.contains(key) && 100 * (before.len() + ejected)
                <= percent * active.len()
            &&& requests.contains(key) && active.contains(key) && !before.contains(key)
                && !changes@.contains(OutlierChange::Ejected(key)) ==> 100 * (before.len()
                + ejected + 1) > percent * active.len()
        } by {
        let s = (*poll).state();
        let duration = (*poll).config().ejection_time();
        let max = (*poll).config().max_ejection_percent as nat;
        let (requests, calls) = choose|
            requests: Seq<K>,
            calls: Seq<&mut mpsc::UnboundedReceiver<K>>,
        |
            {
                &&& #[trigger] drained(calls, requests)
                &&& *calls[0] == (*poll).requests()
                &&& forall|i: int|
                    0 <= i < calls.len() - 1 ==> *final(#[trigger] calls[i]) == *calls[i + 1]
                &&& *final(calls.last()) == (*final(poll)).requests()
                &&& ((*final(poll)).state(), changes@) == s.round(
                    requests,
                    now as nat,
                    duration,
                    max,
                )
            };
        round_is_exact(s, requests, now as nat, duration, max);
        ejections_stay_under_the_maximum(s, requests, now as nat, duration, max);
        let is_ejection = |c: OutlierChange<K>| c is Ejected;
        lemma_filter(changes@, is_ejection);
        if changes@.contains(OutlierChange::Ejected(key)) {
            assert(changes@.filter(is_ejection).contains(OutlierChange::Ejected(key)));
        }
        if requests.contains(key) && s.active.contains(key) && !s.ejected.contains(key) {
            endpoints_are_passed_over_only_for_want_of_room(
                s,
                requests,
                now as nat,
                duration,
                max,
                key,
            );
        }
        assert(drained(calls, requests));
    }
}

/// The configuration that there is where none is given: a sweep every ten seconds, ejections of thirty
/// seconds and of three hundred at most, of a tenth of the endpoints at most, after five failures in a
/// row or where more than half of a hundred calls or more have failed.
pub proof fn the_default_configuration_is_fixed(config: OutlierDetectionConfig)
    requires
        call_ensures(<OutlierDetectionConfig as Default>::default, (), config),
    ensures
        config.interval == 10_000_000_000u64,
        config.base_ejection_time == 30_000_000_000u64,
        config.max_ejection_time == 300_000_000_000u64,
        config.max_ejection_percent == 10,
        config.consecutive_failures_threshold == 5,
        config.failure_percentage_threshold == 50,
        config.failure_percentage_request_volume == 100,
{
}

}
