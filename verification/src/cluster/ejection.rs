//! What outlier detection comes to: which endpoints are ejected when, and for how long.

use crate::cluster::outlier::OutlierChange;
use crate::sequences::{
    lemma_concat_contains, lemma_filter, lemma_filter_all, lemma_filter_none,
    lemma_insert_contains, lemma_push_contains,
};
use vstd::prelude::*;

verus! {

/// What a detector knows: which endpoints are in the topology, which of them are ejected, and
/// when each ejection ends, soonest first.
#[verifier::ext_equal]
#[verifier::reject_recursive_types(K)]
pub struct DetectorState<K> {
    pub active: Set<K>,
    pub ejected: Set<K>,
    pub pending: Seq<(K, nat)>,
}

/// Where an ejection that ends at `at` is queued: behind every one that ends no later.
pub open spec fn queue_slot<K>(pending: Seq<(K, nat)>, at: nat) -> nat
    decreases pending.len(),
{
    if pending.len() == 0 || pending.last().1 <= at {
        pending.len()
    } else {
        queue_slot(pending.drop_last(), at)
    }
}

/// Whether ejections are in the order of their ends.
pub open spec fn in_order<K>(pending: Seq<(K, nat)>) -> bool {
    forall|i: int, j: int|
        0 <= i <= j < pending.len() ==> (#[trigger] pending[i]).1 <= (#[trigger] pending[j]).1
}

/// Whether no endpoint has two ejections.
pub open spec fn distinct_endpoints<K>(pending: Seq<(K, nat)>) -> bool {
    forall|i: int, j: int|
        0 <= i < j < pending.len() ==> (#[trigger] pending[i]).0 != (#[trigger] pending[j]).0
}

impl<K> DetectorState<K> {
    /// Nothing is known.
    pub open spec fn empty() -> DetectorState<K> {
        DetectorState { active: Set::empty(), ejected: Set::empty(), pending: Seq::empty() }
    }

    /// The endpoints that are ejected are in the topology; each has one end queued, and no other
    /// endpoint has any. The ends are in order.
    pub open spec fn well_formed(self) -> bool {
        &&& self.active.finite()
        &&& self.ejected.finite()
        &&& self.ejected.subset_of(self.active)
        &&& in_order(self.pending)
        &&& distinct_endpoints(self.pending)
        &&& forall|k: K| #[trigger]
            self.ejected.contains(k) ==> exists|i: int|
                0 <= i < self.pending.len() && (#[trigger] self.pending[i]).0 == k
        &&& forall|i: int|
            0 <= i < self.pending.len() ==> self.ejected.contains((#[trigger] self.pending[i]).0)
    }

    /// The endpoint joins the topology.
    pub open spec fn add_endpoint(self, key: K) -> DetectorState<K> {
        DetectorState { active: self.active.insert(key), ..self }
    }

    /// The endpoint leaves the topology, and its ejection, if there is one, is over.
    pub open spec fn remove_endpoint(self, key: K) -> DetectorState<K> {
        DetectorState {
            active: self.active.remove(key),
            ejected: self.ejected.remove(key),
            pending: self.pending.filter(|e: (K, nat)| e.0 != key),
        }
    }

    /// Whether the endpoint's ejection has ended by `now`.
    pub open spec fn due(self, key: K, now: nat) -> bool {
        exists|end: nat| end <= now && #[trigger] self.pending.contains((key, end))
    }

    /// Whether the endpoint is one to eject: it is in the topology and not ejected.
    pub open spec fn ejectable(self, key: K) -> bool {
        self.active.contains(key) && !self.ejected.contains(key)
    }

    /// Whether one more ejection leaves no more than the given percentage of the endpoints ejected.
    pub open spec fn has_room(self, max_percent: nat) -> bool {
        100 * (self.ejected.len() + 1) <= max_percent * self.active.len()
    }

    /// The endpoint is ejected until `until`.
    pub open spec fn eject(self, key: K, until: nat) -> DetectorState<K> {
        DetectorState {
            ejected: self.ejected.insert(key),
            pending: self.pending.insert(queue_slot(self.pending, until) as int, (key, until)),
            ..self
        }
    }

    /// The outcome of a sequence of requests to eject, and the changes that it makes. A request is
    /// acted on where the endpoint is one to eject and there is room.
    pub open spec fn eject_all(self, requests: Seq<K>, until: nat, max_percent: nat) -> (
        DetectorState<K>,
        Seq<OutlierChange<K>>,
    )
        decreases requests.len(),
    {
        if requests.len() == 0 {
            (self, Seq::empty())
        } else {
            let (before, changes) = self.eject_all(requests.drop_last(), until, max_percent);
            let key = requests.last();
            if before.ejectable(key) && before.has_room(max_percent) {
                (before.eject(key, until), changes.push(OutlierChange::Ejected(key)))
            } else {
                (before, changes)
            }
        }
    }

    /// The first queued ejection ends: the endpoint is restored.
    pub open spec fn end_first(self) -> DetectorState<K> {
        DetectorState {
            ejected: self.ejected.remove(self.pending[0].0),
            pending: self.pending.drop_first(),
            ..self
        }
    }

    /// Every ejection that has ended by `now` is over.
    pub open spec fn uneject(self, now: nat) -> (DetectorState<K>, Seq<OutlierChange<K>>)
        decreases self.pending.len(),
    {
        if self.pending.len() == 0 || self.pending[0].1 > now {
            (self, Seq::empty())
        } else {
            let (after, changes) = self.end_first().uneject(now);
            (after, seq![OutlierChange::Unejected(self.pending[0].0)] + changes)
        }
    }

    /// One round: the requested ejections, then the ejections that have ended.
    pub open spec fn round(
        self,
        requests: Seq<K>,
        now: nat,
        duration: nat,
        max_percent: nat,
    ) -> (DetectorState<K>, Seq<OutlierChange<K>>) {
        let (middle, ejections) = self.eject_all(requests, now + duration, max_percent);
        let (after, restorations) = middle.uneject(now);
        (after, ejections + restorations)
    }

    /// What an event leaves.
    pub open spec fn after(
        self,
        event: DetectorEvent<K>,
        duration: nat,
        max_percent: nat,
    ) -> DetectorState<K> {
        match event {
            DetectorEvent::Added(key) => self.add_endpoint(key),
            DetectorEvent::Removed(key) => self.remove_endpoint(key),
            DetectorEvent::Polled { requests, now } => self.round(
                requests,
                now,
                duration,
                max_percent,
            ).0,
        }
    }

    /// What a row of events leaves.
    pub open spec fn after_all(
        self,
        events: Seq<DetectorEvent<K>>,
        duration: nat,
        max_percent: nat,
    ) -> DetectorState<K>
        decreases events.len(),
    {
        if events.len() == 0 {
            self
        } else {
            self.after_all(events.drop_last(), duration, max_percent).after(
                events.last(),
                duration,
                max_percent,
            )
        }
    }

    /// The changes that an event reports.
    pub open spec fn reported(
        self,
        event: DetectorEvent<K>,
        duration: nat,
        max_percent: nat,
    ) -> Seq<OutlierChange<K>> {
        match event {
            DetectorEvent::Polled { requests, now } => self.round(
                requests,
                now,
                duration,
                max_percent,
            ).1,
            _ => Seq::empty(),
        }
    }

    /// How many times a row of events reports the change.
    pub open spec fn times_reported(
        self,
        events: Seq<DetectorEvent<K>>,
        change: OutlierChange<K>,
        duration: nat,
        max_percent: nat,
    ) -> nat
        decreases events.len(),
    {
        if events.len() == 0 {
            0
        } else {
            let before = self.after_all(events.drop_last(), duration, max_percent);
            self.times_reported(events.drop_last(), change, duration, max_percent)
                + before.reported(events.last(), duration, max_percent).to_multiset().count(change)
        }
    }
}

/// What can happen to a detector.
#[verifier::reject_recursive_types(K)]
pub enum DetectorEvent<K> {
    /// The endpoint joins the topology.
    Added(K),
    /// The endpoint leaves the topology.
    Removed(K),
    /// The detector is polled, where these requests to eject are queued.
    Polled { requests: Seq<K>, now: nat },
}

/// The queue slot splits the ejections into those that end no later and those that end later.
pub(crate) proof fn lemma_queue_slot<K>(pending: Seq<(K, nat)>, at: nat)
    requires
        in_order(pending),
    ensures
        queue_slot(pending, at) <= pending.len(),
        forall|i: int| 0 <= i < queue_slot(pending, at) ==> (#[trigger] pending[i]).1 <= at,
        forall|i: int|
            queue_slot(pending, at) <= i < pending.len() ==> (#[trigger] pending[i]).1 > at,
    decreases pending.len(),
{
    if pending.len() > 0 && pending.last().1 > at {
        let rest = pending.drop_last();
        assert forall|i: int, j: int| 0 <= i <= j < rest.len() implies (#[trigger] rest[i]).1 <= (
        #[trigger] rest[j]).1 by {
            assert(rest[i] == pending[i] && rest[j] == pending[j]);
        }
        lemma_queue_slot(rest, at);
        assert forall|i: int| 0 <= i < queue_slot(pending, at) implies (#[trigger] pending[i]).1
            <= at by {
            assert(rest[i] == pending[i]);
        }
        assert forall|i: int| queue_slot(pending, at) <= i < pending.len() implies (
        #[trigger] pending[i]).1 > at by {
            if i < rest.len() {
                assert(rest[i] == pending[i]);
            }
        }
    }
}

/// An endpoint has an end queued exactly where it is ejected, and no second one.
proof fn lemma_queued_are_ejected<K>(s: DetectorState<K>)
    requires
        s.well_formed(),
    ensures
        forall|k: K, end: nat| #[trigger]
            s.pending.contains((k, end)) ==> s.ejected.contains(k),
        forall|k: K, end: nat, other: nat|
            #![trigger s.pending.contains((k, end)), s.pending.contains((k, other))]
            s.pending.contains((k, end)) && s.pending.contains((k, other)) ==> end == other,
{
    assert forall|k: K, end: nat| #[trigger] s.pending.contains((k, end)) implies s.ejected.contains(
        k,
    ) by {
        let i = choose|i: int| 0 <= i < s.pending.len() && s.pending[i] == (k, end);
        assert(s.ejected.contains(s.pending[i].0));
    }
    assert forall|k: K, end: nat, other: nat|
        #![trigger s.pending.contains((k, end)), s.pending.contains((k, other))]
        s.pending.contains((k, end)) && s.pending.contains((k, other)) implies end == other by {
        let i = choose|i: int| 0 <= i < s.pending.len() && s.pending[i] == (k, end);
        let j = choose|j: int| 0 <= j < s.pending.len() && s.pending[j] == (k, other);
        assert(s.pending[i].0 == s.pending[j].0);
    }
}

/// Ejecting an endpoint keeps the state well formed.
pub(crate) proof fn lemma_eject_well_formed<K>(s: DetectorState<K>, key: K, until: nat)
    requires
        s.well_formed(),
        s.ejectable(key),
    ensures
        s.eject(key, until).well_formed(),
{
    let slot = queue_slot(s.pending, until) as int;
    let t = s.eject(key, until);
    lemma_queue_slot(s.pending, until);
    assert(t.pending.len() == s.pending.len() + 1);
    assert forall|i: int| 0 <= i < t.pending.len() implies #[trigger] t.pending[i] == (if i < slot {
        s.pending[i]
    } else if i == slot {
        (key, until)
    } else {
        s.pending[i - 1]
    }) by {}
    assert forall|k: K| #[trigger] t.ejected.contains(k) implies exists|i: int|
        0 <= i < t.pending.len() && (#[trigger] t.pending[i]).0 == k by {
        if k == key {
            assert(t.pending[slot].0 == k);
        } else {
            assert(s.ejected.contains(k));
            let i = choose|i: int| 0 <= i < s.pending.len() && (#[trigger] s.pending[i]).0 == k;
            let j = if i < slot {
                i
            } else {
                i + 1
            };
            assert(t.pending[j].0 == k);
        }
    }
    assert forall|i: int| 0 <= i < t.pending.len() implies t.ejected.contains(
        (#[trigger] t.pending[i]).0,
    ) by {
        if i < slot {
            assert(s.ejected.contains(s.pending[i].0));
        } else if i > slot {
            assert(s.ejected.contains(s.pending[i - 1].0));
        }
    }
    assert forall|i: int, j: int| 0 <= i < j < t.pending.len() implies (#[trigger] t.pending[i]).0
        != (#[trigger] t.pending[j]).0 by {
        if i == slot {
            assert(s.ejected.contains(s.pending[j - 1].0));
        } else if j == slot {
            assert(s.ejected.contains(s.pending[i].0));
        }
    }
}

/// Ending the first ejection keeps the state well formed.
pub(crate) proof fn lemma_end_first_well_formed<K>(s: DetectorState<K>)
    requires
        s.well_formed(),
        s.pending.len() > 0,
    ensures
        s.end_first().well_formed(),
{
    let t = s.end_first();
    assert forall|i: int| 0 <= i < t.pending.len() implies #[trigger] t.pending[i] == s.pending[i
        + 1] by {}
    assert forall|k: K| #[trigger] t.ejected.contains(k) implies exists|i: int|
        0 <= i < t.pending.len() && (#[trigger] t.pending[i]).0 == k by {
        assert(s.ejected.contains(k));
        let i = choose|i: int| 0 <= i < s.pending.len() && (#[trigger] s.pending[i]).0 == k;
        assert(i > 0);
        assert(t.pending[i - 1].0 == k);
    }
    assert forall|i: int| 0 <= i < t.pending.len() implies t.ejected.contains(
        (#[trigger] t.pending[i]).0,
    ) by {
        assert(s.ejected.contains(s.pending[i + 1].0));
        assert(s.pending[0].0 != s.pending[i + 1].0);
    }
}

/// What is left of a queue of ejections is in order, and has no endpoint twice.
proof fn lemma_filter_pending<K>(pending: Seq<(K, nat)>, key: K)
    requires
        in_order(pending),
        distinct_endpoints(pending),
    ensures
        in_order(pending.filter(|e: (K, nat)| e.0 != key)),
        distinct_endpoints(pending.filter(|e: (K, nat)| e.0 != key)),
    decreases pending.len(),
{
    let keep = |e: (K, nat)| e.0 != key;
    reveal(Seq::filter);
    if pending.len() > 0 {
        let rest = pending.drop_last();
        let last = pending.last();
        assert forall|i: int, j: int| 0 <= i <= j < rest.len() implies (#[trigger] rest[i]).1 <= (
        #[trigger] rest[j]).1 by {
            assert(rest[i] == pending[i] && rest[j] == pending[j]);
        }
        assert forall|i: int, j: int| 0 <= i < j < rest.len() implies (#[trigger] rest[i]).0 != (
        #[trigger] rest[j]).0 by {
            assert(rest[i] == pending[i] && rest[j] == pending[j]);
        }
        lemma_filter_pending(rest, key);
        lemma_filter(rest, keep);
        let kept = rest.filter(keep);
        assert forall|i: int| 0 <= i < kept.len() implies (#[trigger] kept[i]).1 <= last.1
            && kept[i].0 != last.0 by {
            assert(kept.contains(kept[i]));
            let j = choose|j: int| 0 <= j < rest.len() && rest[j] == kept[i];
            assert(pending[j] == kept[i]);
            assert(pending[pending.len() - 1] == last);
        }
    }
}

/// Joining and leaving the topology keep the state well formed. An endpoint that leaves is no longer
/// ejected and has no end queued; of every other, ejection and end stay.
pub proof fn topology_changes_keep_the_state_well_formed<K>(s: DetectorState<K>, key: K)
    requires
        s.well_formed(),
    ensures
        s.add_endpoint(key).well_formed(),
        s.remove_endpoint(key).well_formed(),
        forall|k: K, end: nat| #[trigger]
            s.remove_endpoint(key).pending.contains((k, end)) <==> k != key && s.pending.contains(
                (k, end),
            ),
{
    let u = s.add_endpoint(key);
    assert forall|k: K| #[trigger] u.ejected.contains(k) implies exists|i: int|
        0 <= i < u.pending.len() && (#[trigger] u.pending[i]).0 == k by {
        assert(s.ejected.contains(k));
        let i = choose|i: int| 0 <= i < s.pending.len() && (#[trigger] s.pending[i]).0 == k;
        assert(u.pending[i].0 == k);
    }
    assert forall|i: int| 0 <= i < u.pending.len() implies u.ejected.contains(
        (#[trigger] u.pending[i]).0,
    ) by {
        assert(s.ejected.contains(s.pending[i].0));
    }
    let t = s.remove_endpoint(key);
    let keep = |e: (K, nat)| e.0 != key;
    lemma_filter_pending(s.pending, key);
    lemma_filter(s.pending, keep);
    assert forall|k: K| #[trigger] t.ejected.contains(k) implies exists|i: int|
        0 <= i < t.pending.len() && (#[trigger] t.pending[i]).0 == k by {
        assert(s.ejected.contains(k));
        let i = choose|i: int| 0 <= i < s.pending.len() && (#[trigger] s.pending[i]).0 == k;
        assert(s.pending.contains(s.pending[i]));
        assert(t.pending.contains(s.pending[i]));
        let j = choose|j: int| 0 <= j < t.pending.len() && t.pending[j] == s.pending[i];
        assert(t.pending[j].0 == k);
    }
    assert forall|i: int| 0 <= i < t.pending.len() implies t.ejected.contains(
        (#[trigger] t.pending[i]).0,
    ) by {
        assert(t.pending.contains(t.pending[i]));
        let j = choose|j: int| 0 <= j < s.pending.len() && s.pending[j] == t.pending[i];
        assert(s.ejected.contains(s.pending[j].0));
    }
}

/// What a sequence of requests to eject comes to. Only endpoints that are requested, in the topology
/// and not ejected yet become ejected, each once, until `until`, and only as long as no more than the
/// given percentage of the endpoints is ejected; such an endpoint is passed over only where one more
/// ejection would be too many.
pub proof fn requests_eject_while_there_is_room<K>(
    s: DetectorState<K>,
    requests: Seq<K>,
    until: nat,
    max_percent: nat,
)
    requires
        s.well_formed(),
    ensures
        ({
            let (t, changes) = s.eject_all(requests, until, max_percent);
            &&& t.well_formed()
            &&& t.active == s.active
            &&& changes.no_duplicates()
            &&& forall|c: OutlierChange<K>| #[trigger] changes.contains(c) ==> c is Ejected
            &&& forall|k: K| #[trigger]
                changes.contains(OutlierChange::Ejected(k)) ==> s.ejectable(k)
                    && requests.contains(k)
            &&& forall|k: K| #[trigger]
                requests.contains(k) && s.ejectable(k) && !changes.contains(
                    OutlierChange::Ejected(k),
                ) ==> !t.has_room(max_percent)
            &&& forall|k: K| #[trigger]
                t.ejected.contains(k) <==> s.ejected.contains(k) || changes.contains(
                    OutlierChange::Ejected(k),
                )
            &&& forall|k: K, end: nat| #[trigger]
                t.pending.contains((k, end)) <==> s.pending.contains((k, end)) || (
                changes.contains(OutlierChange::Ejected(k)) && end == until)
            &&& t.ejected.len() == s.ejected.len() + changes.len()
            &&& changes.len() > 0 ==> 100 * t.ejected.len() <= max_percent * s.active.len()
        }),
    decreases requests.len(),
{
    if requests.len() > 0 {
        let rest = requests.drop_last();
        let key = requests.last();
        requests_eject_while_there_is_room(s, rest, until, max_percent);
        let (before, made) = s.eject_all(rest, until, max_percent);
        let (t, changes) = s.eject_all(requests, until, max_percent);
        assert(requests =~= rest.push(key));
        lemma_push_contains(rest, key);
        if before.ejectable(key) && before.has_room(max_percent) {
            let change = OutlierChange::Ejected(key);
            lemma_eject_well_formed(before, key, until);
            lemma_queue_slot(before.pending, until);
            lemma_insert_contains(
                before.pending,
                queue_slot(before.pending, until) as int,
                (key, until),
            );
            assert(!made.contains(change));
            lemma_push_contains(made, change);
            assert forall|k: K| #[trigger] requests.contains(k) && s.ejectable(k)
                && !changes.contains(OutlierChange::Ejected(k)) implies !t.has_room(
                max_percent,
            ) by {
                assert(k != key);
                assert(rest.contains(k));
                assert(!made.contains(OutlierChange::Ejected(k)));
            }
        } else {
            assert forall|k: K| #[trigger] requests.contains(k) && s.ejectable(k)
                && !changes.contains(OutlierChange::Ejected(k)) implies !t.has_room(
                max_percent,
            ) by {
                if !rest.contains(k) {
                    assert(k == key);
                    assert(before.active.contains(k));
                    assert(!before.ejected.contains(k));
                }
            }
        }
    }
}

/// What the passing of time comes to: no ejection that has ended stays queued, and exactly the
/// endpoints whose ejection has ended are restored, each once.
pub proof fn time_restores_exactly_the_due<K>(s: DetectorState<K>, now: nat)
    requires
        s.well_formed(),
    ensures
        ({
            let (t, changes) = s.uneject(now);
            &&& t.well_formed()
            &&& t.active == s.active
            &&& changes.no_duplicates()
            &&& forall|c: OutlierChange<K>| #[trigger] changes.contains(c) ==> c is Unejected
            &&& forall|k: K| #[trigger]
                changes.contains(OutlierChange::Unejected(k)) <==> s.due(k, now)
            &&& forall|k: K| #[trigger]
                t.ejected.contains(k) <==> s.ejected.contains(k) && !s.due(k, now)
            &&& forall|k: K, end: nat| #[trigger]
                t.pending.contains((k, end)) <==> s.pending.contains((k, end)) && end > now
        }),
    decreases s.pending.len(),
{
    if s.pending.len() == 0 || s.pending[0].1 > now {
        assert forall|k: K, end: nat| #[trigger] s.pending.contains((k, end)) implies end > now by {
            let i = choose|i: int| 0 <= i < s.pending.len() && s.pending[i] == (k, end);
            assert(s.pending[0].1 <= s.pending[i].1);
        }
    } else {
        let u = s.end_first();
        let first = s.pending[0];
        let restored = OutlierChange::Unejected(first.0);
        lemma_end_first_well_formed(s);
        time_restores_exactly_the_due(u, now);
        lemma_queued_are_ejected(u);
        let (t, changes) = s.uneject(now);
        let (_, later) = u.uneject(now);
        assert(s.pending =~= u.pending.insert(0, first));
        lemma_insert_contains(u.pending, 0, first);
        assert forall|k: K| s.due(k, now) <==> #[trigger] u.due(k, now) || k == first.0 by {
            if s.due(k, now) {
                let end = choose|end: nat| end <= now && #[trigger] s.pending.contains((k, end));
                if (k, end) != first {
                    assert(u.pending.contains((k, end)));
                }
            }
            if u.due(k, now) {
                let end = choose|end: nat| end <= now && #[trigger] u.pending.contains((k, end));
                assert(s.pending.contains((k, end)));
            }
            if k == first.0 {
                assert(s.pending.contains((k, first.1)));
            }
        }
        assert(!u.due(first.0, now)) by {
            if u.due(first.0, now) {
                let end = choose|end: nat|
                    end <= now && #[trigger] u.pending.contains((first.0, end));
                assert(u.ejected.contains(first.0));
            }
        }
        assert(!later.contains(restored));
        assert(changes =~= later.insert(0, restored));
        lemma_insert_contains(later, 0, restored);
        assert(changes.no_duplicates()) by {
            assert forall|i: int, j: int|
                0 <= i < changes.len() && 0 <= j < changes.len() && i != j implies changes[i]
                != changes[j] by {
                if i > 0 {
                    assert(changes[i] == later[i - 1]);
                    assert(later.contains(later[i - 1]));
                }
                if j > 0 {
                    assert(changes[j] == later[j - 1]);
                    assert(later.contains(later[j - 1]));
                }
            }
        }
        assert forall|k: K| #[trigger] changes.contains(OutlierChange::Unejected(k)) <==> s.due(
            k,
            now,
        ) by {
            assert(s.due(k, now) <==> u.due(k, now) || k == first.0);
            assert(later.contains(OutlierChange::Unejected(k)) <==> u.due(k, now));
        }
        assert forall|k: K| #[trigger] t.ejected.contains(k) <==> s.ejected.contains(k) && !s.due(
            k,
            now,
        ) by {
            assert(s.due(k, now) <==> u.due(k, now) || k == first.0);
            assert(t.ejected.contains(k) <==> u.ejected.contains(k) && !u.due(k, now));
        }
    }
}

/// What one round comes to. It reports no change twice. It ejects only endpoints that are requested, in the topology and not
/// ejected, and passes one over only where there is no room. It restores exactly those whose ejection
/// has ended; an ejection without duration ends in its own round. An endpoint is ejected afterwards if
/// it was ejected and its ejection has not ended, or was ejected now for some time.
pub proof fn round_is_exact<K>(
    s: DetectorState<K>,
    requests: Seq<K>,
    now: nat,
    duration: nat,
    max_percent: nat,
)
    requires
        s.well_formed(),
    ensures
        ({
            let (t, changes) = s.round(requests, now, duration, max_percent);
            let middle = s.eject_all(requests, now + duration, max_percent).0;
            &&& t.well_formed()
            &&& t.active == s.active
            &&& changes.no_duplicates()
            &&& forall|k: K| #[trigger]
                changes.contains(OutlierChange::Ejected(k)) ==> s.ejectable(k)
                    && requests.contains(k)
            &&& forall|k: K| #[trigger]
                requests.contains(k) && s.ejectable(k) && !changes.contains(
                    OutlierChange::Ejected(k),
                ) ==> !middle.has_room(max_percent)
            &&& forall|k: K| #[trigger]
                changes.contains(OutlierChange::Unejected(k)) <==> s.due(k, now) || (duration == 0
                    && changes.contains(OutlierChange::Ejected(k)))
            &&& forall|k: K| #[trigger]
                t.ejected.contains(k) <==> (s.ejected.contains(k) && !s.due(k, now)) || (duration
                    > 0 && changes.contains(OutlierChange::Ejected(k)))
            &&& forall|k: K, end: nat| #[trigger]
                t.pending.contains((k, end)) <==> (s.pending.contains((k, end)) && end > now) || (
                duration > 0 && changes.contains(OutlierChange::Ejected(k)) && end == now
                    + duration)
        }),
{
    let (middle, ejections) = s.eject_all(requests, now + duration, max_percent);
    let (t, restorations) = middle.uneject(now);
    let changes = ejections + restorations;
    requests_eject_while_there_is_room(s, requests, now + duration, max_percent);
    time_restores_exactly_the_due(middle, now);
    lemma_queued_are_ejected(s);
    lemma_concat_contains(ejections, restorations);
    assert forall|i: int, j: int|
        0 <= i < changes.len() && 0 <= j < changes.len() && i != j implies changes[i]
        != changes[j] by {
        assert(forall|n: int| 0 <= n < ejections.len() ==> ejections.contains(ejections[n]));
        assert(forall|n: int|
            0 <= n < restorations.len() ==> restorations.contains(restorations[n]));
    }
    assert forall|k: K| #[trigger]
        changes.contains(OutlierChange::Ejected(k)) <==> ejections.contains(
            OutlierChange::Ejected(k),
        ) by {
        if restorations.contains(OutlierChange::Ejected(k)) {
            assert(OutlierChange::Ejected(k) is Unejected);
        }
    }
    assert forall|k: K| #[trigger] middle.due(k, now) <==> s.due(k, now) || (duration == 0
        && ejections.contains(OutlierChange::Ejected(k))) by {
        if s.due(k, now) {
            let end = choose|end: nat| end <= now && #[trigger] s.pending.contains((k, end));
            assert(middle.pending.contains((k, end)));
        }
        if duration == 0 && ejections.contains(OutlierChange::Ejected(k)) {
            assert(middle.pending.contains((k, now + duration)));
        }
        if middle.due(k, now) {
            let end = choose|end: nat| end <= now && #[trigger] middle.pending.contains((k, end));
            if s.pending.contains((k, end)) {
                assert(s.due(k, now));
            }
        }
    }
    assert forall|k: K| #[trigger] changes.contains(OutlierChange::Unejected(k)) <==> s.due(k, now)
        || (duration == 0 && changes.contains(OutlierChange::Ejected(k))) by {
        if ejections.contains(OutlierChange::Unejected(k)) {
            assert(OutlierChange::Unejected(k) is Ejected);
        }
        assert(middle.due(k, now) <==> restorations.contains(OutlierChange::Unejected(k)));
        assert(changes.contains(OutlierChange::Ejected(k)) <==> ejections.contains(
            OutlierChange::Ejected(k),
        ));
    }
    assert forall|k: K| #[trigger] t.ejected.contains(k) <==> (s.ejected.contains(k) && !s.due(
        k,
        now,
    )) || (duration > 0 && changes.contains(OutlierChange::Ejected(k))) by {
        assert(t.ejected.contains(k) <==> middle.ejected.contains(k) && !middle.due(k, now));
        assert(changes.contains(OutlierChange::Ejected(k)) <==> ejections.contains(
            OutlierChange::Ejected(k),
        ));
        if s.due(k, now) {
            let end = choose|end: nat| end <= now && #[trigger] s.pending.contains((k, end));
            assert(s.ejected.contains(k));
        }
    }
    assert forall|k: K, end: nat| #[trigger] t.pending.contains((k, end)) <==> (s.pending.contains(
        (k, end),
    ) && end > now) || (duration > 0 && changes.contains(OutlierChange::Ejected(k)) && end == now
        + duration) by {
        assert(t.pending.contains((k, end)) <==> middle.pending.contains((k, end)) && end > now);
        assert(changes.contains(OutlierChange::Ejected(k)) <==> ejections.contains(
            OutlierChange::Ejected(k),
        ));
    }
    assert forall|k: K| #[trigger] requests.contains(k) && s.ejectable(k) && !changes.contains(
        OutlierChange::Ejected(k),
    ) implies !middle.has_room(max_percent) by {
        assert(!ejections.contains(OutlierChange::Ejected(k)));
    }
}

/// No round ejects past the maximum: where it ejects at all, the endpoints that are then ejected are
/// no more than the given percentage of all. Where none was ejected before, so are the ejections that
/// it reports.
pub proof fn ejections_stay_under_the_maximum<K>(
    s: DetectorState<K>,
    requests: Seq<K>,
    now: nat,
    duration: nat,
    max_percent: nat,
)
    requires
        s.well_formed(),
    ensures
        ({
            let (t, changes) = s.round(requests, now, duration, max_percent);
            let ejections = changes.filter(|c: OutlierChange<K>| c is Ejected);
            &&& ejections.len() > 0 ==> 100 * (s.ejected.len() + ejections.len()) <= max_percent
                * s.active.len()
            &&& 100 * t.ejected.len() <= 100 * s.ejected.len() || 100 * t.ejected.len()
                <= max_percent * s.active.len()
            &&& s.ejected == Set::<K>::empty() ==> 100 * ejections.len() <= max_percent
                * s.active.len()
        }),
{
    let (middle, ejections) = s.eject_all(requests, now + duration, max_percent);
    let (t, restorations) = middle.uneject(now);
    let is_ejection = |c: OutlierChange<K>| c is Ejected;
    requests_eject_while_there_is_room(s, requests, now + duration, max_percent);
    time_restores_exactly_the_due(middle, now);
    assert((ejections + restorations).filter(is_ejection) == ejections) by {
        Seq::filter_distributes_over_add(ejections, restorations, is_ejection);
        lemma_filter_all(ejections, is_ejection);
        lemma_filter_none(restorations, is_ejection);
        assert(ejections + Seq::<OutlierChange<K>>::empty() =~= ejections);
    }
    assert(t.ejected.len() <= middle.ejected.len()) by {
        assert(t.ejected.subset_of(middle.ejected));
        vstd::set_lib::lemma_len_subset(t.ejected, middle.ejected);
    }
    assert(0 <= max_percent * s.active.len()) by (nonlinear_arith);
}

/// Only an endpoint that is ejected is restored, and it is then no longer ejected. It was ejected
/// before, or in this very round for no time at all.
pub proof fn only_the_ejected_are_restored<K>(
    s: DetectorState<K>,
    requests: Seq<K>,
    now: nat,
    duration: nat,
    max_percent: nat,
    key: K,
)
    requires
        s.well_formed(),
        s.round(requests, now, duration, max_percent).1.contains(OutlierChange::Unejected(key)),
    ensures
        ({
            let (t, changes) = s.round(requests, now, duration, max_percent);
            &&& s.ejected.contains(key) || (duration == 0 && changes.contains(
                OutlierChange::Ejected(key),
            ))
            &&& !t.ejected.contains(key)
        }),
{
    round_is_exact(s, requests, now, duration, max_percent);
    lemma_queued_are_ejected(s);
    if s.due(key, now) {
        let end = choose|end: nat| end <= now && #[trigger] s.pending.contains((key, end));
        assert(s.ejected.contains(key));
    }
}

/// An endpoint outside the topology is neither ejected nor restored, whatever is requested of it.
pub proof fn strangers_are_left_alone<K>(
    s: DetectorState<K>,
    requests: Seq<K>,
    now: nat,
    duration: nat,
    max_percent: nat,
    key: K,
)
    requires
        s.well_formed(),
        !s.active.contains(key),
    ensures
        ({
            let (t, changes) = s.round(requests, now, duration, max_percent);
            &&& !changes.contains(OutlierChange::Ejected(key))
            &&& !changes.contains(OutlierChange::Unejected(key))
            &&& !t.ejected.contains(key)
        }),
{
    round_is_exact(s, requests, now, duration, max_percent);
    lemma_queued_are_ejected(s);
    if s.due(key, now) {
        let end = choose|end: nat| end <= now && #[trigger] s.pending.contains((key, end));
        assert(s.ejected.contains(key));
    }
}

/// An endpoint that leaves the topology and comes back starts afresh: it is not ejected, and unless
/// its ejection is requested again, it is neither ejected nor restored.
pub proof fn a_returning_endpoint_starts_afresh<K>(
    s: DetectorState<K>,
    key: K,
    requests: Seq<K>,
    now: nat,
    duration: nat,
    max_percent: nat,
)
    requires
        s.well_formed(),
        !requests.contains(key),
    ensures
        ({
            let back = s.remove_endpoint(key).add_endpoint(key);
            let (t, changes) = back.round(requests, now, duration, max_percent);
            &&& back.ejectable(key)
            &&& !changes.contains(OutlierChange::Ejected(key))
            &&& !changes.contains(OutlierChange::Unejected(key))
            &&& t.ejectable(key)
        }),
{
    let gone = s.remove_endpoint(key);
    let back = gone.add_endpoint(key);
    topology_changes_keep_the_state_well_formed(s, key);
    topology_changes_keep_the_state_well_formed(gone, key);
    round_is_exact(back, requests, now, duration, max_percent);
    lemma_queued_are_ejected(back);
    if back.due(key, now) {
        let end = choose|end: nat| end <= now && #[trigger] back.pending.contains((key, end));
        assert(back.ejected.contains(key));
    }
}

/// Whether the event leaves the ejection of the endpoint that ends at `end` alone: the endpoint stays
/// in the topology, and its time has not come.
pub open spec fn leaves_ejected<K>(event: DetectorEvent<K>, key: K, end: nat) -> bool {
    match event {
        DetectorEvent::Added(_) => true,
        DetectorEvent::Removed(k) => k != key,
        DetectorEvent::Polled { now, .. } => now < end,
    }
}

/// An ejection lasts its time. After any row of events before its end, in whatever order, the endpoint
/// is ejected as long as it stays in the topology. The next poll then reports nothing of it where it
/// comes before the end too, and restores it where it does not.
pub proof fn an_ejection_lasts_its_time<K>(
    s: DetectorState<K>,
    key: K,
    end: nat,
    events: Seq<DetectorEvent<K>>,
    requests: Seq<K>,
    now: nat,
    duration: nat,
    max_percent: nat,
)
    requires
        s.well_formed(),
        s.pending.contains((key, end)),
        forall|i: int|
            0 <= i < events.len() ==> leaves_ejected(#[trigger] events[i], key, end),
    ensures
        ({
            let t = s.after_all(events, duration, max_percent);
            let (u, changes) = t.round(requests, now, duration, max_percent);
            &&& t.well_formed()
            &&& t.ejected.contains(key)
            &&& t.pending.contains((key, end))
            &&& u.ejected.contains(key) <==> now < end
            &&& changes.contains(OutlierChange::Unejected(key)) <==> now >= end
            &&& !changes.contains(OutlierChange::Ejected(key))
        }),
    decreases events.len(),
{
    if events.len() > 0 {
        let rest = events.drop_last();
        let before = s.after_all(rest, duration, max_percent);
        assert forall|i: int| 0 <= i < rest.len() implies leaves_ejected(
            #[trigger] rest[i],
            key,
            end,
        ) by {
            assert(rest[i] == events[i]);
        }
        assert(leaves_ejected(events[events.len() - 1], key, end));
        match events.last() {
            DetectorEvent::Added(k) => {
                an_ejection_lasts_its_time(s, key, end, rest, requests, now, duration, max_percent);
                topology_changes_keep_the_state_well_formed(before, k);
            },
            DetectorEvent::Removed(k) => {
                an_ejection_lasts_its_time(s, key, end, rest, requests, now, duration, max_percent);
                topology_changes_keep_the_state_well_formed(before, k);
            },
            DetectorEvent::Polled { requests: polled, now: then } => {
                an_ejection_lasts_its_time(s, key, end, rest, polled, then, duration, max_percent);
                round_is_exact(before, polled, then, duration, max_percent);
            },
        }
    }
    let t = s.after_all(events, duration, max_percent);
    assert(t.pending.contains((key, end)));
    lemma_queued_are_ejected(t);
    round_is_exact(t, requests, now, duration, max_percent);
    assert(t.due(key, now) <==> now >= end) by {
        if t.due(key, now) {
            let e = choose|e: nat| e <= now && #[trigger] t.pending.contains((key, e));
            assert(t.pending.contains((key, e)) && t.pending.contains((key, end)));
            assert(e == end);
        }
    }
}

/// An endpoint whose ejection a poll at `now` reports is ejected until `now` plus the duration, where
/// there is one.
pub proof fn an_ejection_is_queued_to_end<K>(
    s: DetectorState<K>,
    requests: Seq<K>,
    now: nat,
    duration: nat,
    max_percent: nat,
    key: K,
)
    requires
        s.well_formed(),
        duration > 0,
        s.round(requests, now, duration, max_percent).1.contains(OutlierChange::Ejected(key)),
    ensures
        ({
            let t = s.round(requests, now, duration, max_percent).0;
            &&& t.well_formed()
            &&& t.ejected.contains(key)
            &&& t.pending.contains((key, now + duration))
        }),
{
    round_is_exact(s, requests, now, duration, max_percent);
}

/// Whether the event does not ask for an ejection of the endpoint.
pub open spec fn asks_no_ejection<K>(event: DetectorEvent<K>, key: K) -> bool {
    match event {
        DetectorEvent::Polled { requests, .. } => !requests.contains(key),
        _ => true,
    }
}

/// How often a round reports a change: once or not at all.
proof fn lemma_reported_once<K>(
    s: DetectorState<K>,
    event: DetectorEvent<K>,
    change: OutlierChange<K>,
    duration: nat,
    max_percent: nat,
)
    requires
        s.well_formed(),
    ensures
        s.after(event, duration, max_percent).well_formed(),
        s.reported(event, duration, max_percent).to_multiset().count(change) == (if s.reported(
            event,
            duration,
            max_percent,
        ).contains(change) {
            1nat
        } else {
            0nat
        }),
{
    let changes = s.reported(event, duration, max_percent);
    match event {
        DetectorEvent::Added(key) => topology_changes_keep_the_state_well_formed(s, key),
        DetectorEvent::Removed(key) => topology_changes_keep_the_state_well_formed(s, key),
        DetectorEvent::Polled { requests, now } => round_is_exact(
            s,
            requests,
            now,
            duration,
            max_percent,
        ),
    }
    changes.to_multiset_ensures();
    changes.lemma_multiset_has_no_duplicates();
}

/// Two rows of events, one after the other.
proof fn lemma_rows<K>(
    s: DetectorState<K>,
    first: Seq<DetectorEvent<K>>,
    second: Seq<DetectorEvent<K>>,
    change: OutlierChange<K>,
    duration: nat,
    max_percent: nat,
)
    ensures
        s.after_all(first + second, duration, max_percent) == s.after_all(
            first,
            duration,
            max_percent,
        ).after_all(second, duration, max_percent),
        s.times_reported(first + second, change, duration, max_percent) == s.times_reported(
            first,
            change,
            duration,
            max_percent,
        ) + s.after_all(first, duration, max_percent).times_reported(
            second,
            change,
            duration,
            max_percent,
        ),
    decreases second.len(),
{
    if second.len() == 0 {
        assert(first + second =~= first);
    } else {
        lemma_rows(s, first, second.drop_last(), change, duration, max_percent);
        assert((first + second).drop_last() =~= first + second.drop_last());
        assert((first + second).last() == second.last());
    }
}

/// As long as an endpoint stays in the topology, its ejections and its restorations balance. Over any
/// row of events, re-ejections included, each ejection is undone once: one more ejection than
/// restorations is reported where the row leaves the endpoint ejected, one fewer where it found it so.
pub proof fn ejections_and_restorations_balance<K>(
    s: DetectorState<K>,
    events: Seq<DetectorEvent<K>>,
    key: K,
    duration: nat,
    max_percent: nat,
)
    requires
        s.well_formed(),
        !events.contains(DetectorEvent::Removed(key)),
    ensures
        ({
            let t = s.after_all(events, duration, max_percent);
            let ejections = s.times_reported(
                events,
                OutlierChange::Ejected(key),
                duration,
                max_percent,
            );
            let restorations = s.times_reported(
                events,
                OutlierChange::Unejected(key),
                duration,
                max_percent,
            );
            &&& t.well_formed()
            &&& ejections + (if s.ejected.contains(key) {
                1int
            } else {
                0int
            }) == restorations + (if t.ejected.contains(key) {
                1int
            } else {
                0int
            })
        }),
    decreases events.len(),
{
    if events.len() > 0 {
        let rest = events.drop_last();
        let event = events.last();
        assert(events =~= rest.push(event));
        lemma_push_contains(rest, event);
        ejections_and_restorations_balance(s, rest, key, duration, max_percent);
        let before = s.after_all(rest, duration, max_percent);
        lemma_reported_once(before, event, OutlierChange::Ejected(key), duration, max_percent);
        lemma_reported_once(before, event, OutlierChange::Unejected(key), duration, max_percent);
        lemma_queued_are_ejected(before);
        match event {
            DetectorEvent::Polled { requests, now } => {
                round_is_exact(before, requests, now, duration, max_percent);
                if before.due(key, now) {
                    let end = choose|end: nat|
                        end <= now && #[trigger] before.pending.contains((key, end));
                    assert(before.ejected.contains(key));
                }
            },
            DetectorEvent::Removed(k) => {
                assert(k != key);
            },
            DetectorEvent::Added(_) => {},
        }
    }
}

/// An endpoint that is not ejected, and whose ejection no poll is asked for, is left alone: after any
/// row of such events it is not ejected, and nothing was reported of it.
pub proof fn what_nobody_asks_for_does_not_happen<K>(
    s: DetectorState<K>,
    events: Seq<DetectorEvent<K>>,
    key: K,
    duration: nat,
    max_percent: nat,
)
    requires
        s.well_formed(),
        !s.ejected.contains(key),
        forall|i: int| 0 <= i < events.len() ==> asks_no_ejection(#[trigger] events[i], key),
    ensures
        ({
            let t = s.after_all(events, duration, max_percent);
            &&& t.well_formed()
            &&& !t.ejected.contains(key)
            &&& s.times_reported(events, OutlierChange::Ejected(key), duration, max_percent) == 0
            &&& s.times_reported(events, OutlierChange::Unejected(key), duration, max_percent) == 0
        }),
    decreases events.len(),
{
    if events.len() > 0 {
        let rest = events.drop_last();
        let event = events.last();
        assert forall|i: int| 0 <= i < rest.len() implies asks_no_ejection(
            #[trigger] rest[i],
            key,
        ) by {
            assert(rest[i] == events[i]);
        }
        assert(asks_no_ejection(events[events.len() - 1], key));
        what_nobody_asks_for_does_not_happen(s, rest, key, duration, max_percent);
        let before = s.after_all(rest, duration, max_percent);
        lemma_reported_once(before, event, OutlierChange::Ejected(key), duration, max_percent);
        lemma_reported_once(before, event, OutlierChange::Unejected(key), duration, max_percent);
        lemma_queued_are_ejected(before);
        if let DetectorEvent::Polled { requests, now } = event {
            round_is_exact(before, requests, now, duration, max_percent);
            if before.due(key, now) {
                let end = choose|end: nat|
                    end <= now && #[trigger] before.pending.contains((key, end));
                assert(before.ejected.contains(key));
            }
        }
    }
}

/// An endpoint that was restored is not restored a second time: unless a poll is asked for its ejection
/// again, it stays as it is, and no event reports anything of it.
pub proof fn an_endpoint_is_restored_once<K>(
    s: DetectorState<K>,
    requests: Seq<K>,
    now: nat,
    events: Seq<DetectorEvent<K>>,
    key: K,
    duration: nat,
    max_percent: nat,
)
    requires
        s.well_formed(),
        s.round(requests, now, duration, max_percent).1.contains(OutlierChange::Unejected(key)),
        forall|i: int| 0 <= i < events.len() ==> asks_no_ejection(#[trigger] events[i], key),
    ensures
        ({
            let restored = s.round(requests, now, duration, max_percent).0;
            let t = restored.after_all(events, duration, max_percent);
            &&& !restored.ejected.contains(key)
            &&& !t.ejected.contains(key)
            &&& restored.times_reported(
                events,
                OutlierChange::Ejected(key),
                duration,
                max_percent,
            ) == 0
            &&& restored.times_reported(
                events,
                OutlierChange::Unejected(key),
                duration,
                max_percent,
            ) == 0
        }),
{
    let restored = s.round(requests, now, duration, max_percent).0;
    only_the_ejected_are_restored(s, requests, now, duration, max_percent, key);
    round_is_exact(s, requests, now, duration, max_percent);
    what_nobody_asks_for_does_not_happen(restored, events, key, duration, max_percent);
}

/// Before an ejection's end nothing is reported of its endpoint.
proof fn lemma_nothing_is_reported_early<K>(
    s: DetectorState<K>,
    key: K,
    end: nat,
    events: Seq<DetectorEvent<K>>,
    duration: nat,
    max_percent: nat,
)
    requires
        s.well_formed(),
        s.pending.contains((key, end)),
        forall|i: int|
            0 <= i < events.len() ==> leaves_ejected(#[trigger] events[i], key, end),
    ensures
        s.times_reported(events, OutlierChange::Ejected(key), duration, max_percent) == 0,
        s.times_reported(events, OutlierChange::Unejected(key), duration, max_percent) == 0,
    decreases events.len(),
{
    if events.len() > 0 {
        let rest = events.drop_last();
        let event = events.last();
        assert forall|i: int| 0 <= i < rest.len() implies leaves_ejected(
            #[trigger] rest[i],
            key,
            end,
        ) by {
            assert(rest[i] == events[i]);
        }
        assert(leaves_ejected(events[events.len() - 1], key, end));
        lemma_nothing_is_reported_early(s, key, end, rest, duration, max_percent);
        let before = s.after_all(rest, duration, max_percent);
        let (requests, now) = match event {
            DetectorEvent::Polled { requests, now } => (requests, now),
            _ => (Seq::empty(), 0),
        };
        an_ejection_lasts_its_time(s, key, end, rest, requests, now, duration, max_percent);
        lemma_reported_once(before, event, OutlierChange::Ejected(key), duration, max_percent);
        lemma_reported_once(before, event, OutlierChange::Unejected(key), duration, max_percent);
    }
}

/// Each ejection is undone exactly once, and never early. While its time lasts, nothing is reported of
/// the endpoint; the first poll after its end restores it; and unless a later poll is asked for its
/// ejection again, no other does. This holds of a first ejection and of every later one alike, since
/// nothing is said of how the state came about.
pub proof fn an_ejection_is_undone_once_and_never_early<K>(
    s: DetectorState<K>,
    key: K,
    end: nat,
    before: Seq<DetectorEvent<K>>,
    requests: Seq<K>,
    now: nat,
    later: Seq<DetectorEvent<K>>,
    duration: nat,
    max_percent: nat,
)
    requires
        s.well_formed(),
        s.pending.contains((key, end)),
        forall|i: int|
            0 <= i < before.len() ==> leaves_ejected(#[trigger] before[i], key, end),
        now >= end,
        forall|i: int| 0 <= i < later.len() ==> asks_no_ejection(#[trigger] later[i], key),
    ensures
        ({
            let row = before.push(DetectorEvent::Polled { requests, now }) + later;
            let restored = OutlierChange::Unejected(key);
            &&& s.times_reported(before, restored, duration, max_percent) == 0
            &&& s.times_reported(row, restored, duration, max_percent) == 1
            &&& s.times_reported(row, OutlierChange::Ejected(key), duration, max_percent) == 0
        }),
{
    let poll = DetectorEvent::Polled { requests, now };
    let first = before.push(poll);
    let t = s.after_all(before, duration, max_percent);
    let u = t.round(requests, now, duration, max_percent).0;
    assert(first.drop_last() =~= before);
    assert(first.last() == poll);
    assert(s.after_all(first, duration, max_percent) == u);
    lemma_nothing_is_reported_early(s, key, end, before, duration, max_percent);
    an_ejection_lasts_its_time(s, key, end, before, requests, now, duration, max_percent);
    lemma_reported_once(t, poll, OutlierChange::Ejected(key), duration, max_percent);
    lemma_reported_once(t, poll, OutlierChange::Unejected(key), duration, max_percent);
    what_nobody_asks_for_does_not_happen(u, later, key, duration, max_percent);
    lemma_rows(s, first, later, OutlierChange::Ejected(key), duration, max_percent);
    lemma_rows(s, first, later, OutlierChange::Unejected(key), duration, max_percent);
}

/// An endpoint in the topology that is not ejected and whose ejection is requested is passed over only
/// for want of room: one ejection more than those that there are and those that the round reports would
/// be more than the given percentage of all endpoints.
pub proof fn endpoints_are_passed_over_only_for_want_of_room<K>(
    s: DetectorState<K>,
    requests: Seq<K>,
    now: nat,
    duration: nat,
    max_percent: nat,
    key: K,
)
    requires
        s.well_formed(),
        requests.contains(key),
        s.active.contains(key),
        !s.ejected.contains(key),
    ensures
        ({
            let changes = s.round(requests, now, duration, max_percent).1;
            let ejections = changes.filter(|c: OutlierChange<K>| c is Ejected);
            changes.contains(OutlierChange::Ejected(key)) || 100 * (s.ejected.len()
                + ejections.len() + 1) > max_percent * s.active.len()
        }),
{
    let (middle, ejections) = s.eject_all(requests, now + duration, max_percent);
    let (t, restorations) = middle.uneject(now);
    let is_ejection = |c: OutlierChange<K>| c is Ejected;
    requests_eject_while_there_is_room(s, requests, now + duration, max_percent);
    time_restores_exactly_the_due(middle, now);
    lemma_concat_contains(ejections, restorations);
    assert((ejections + restorations).filter(is_ejection) == ejections) by {
        Seq::filter_distributes_over_add(ejections, restorations, is_ejection);
        lemma_filter_all(ejections, is_ejection);
        lemma_filter_none(restorations, is_ejection);
        assert(ejections + Seq::<OutlierChange<K>>::empty() =~= ejections);
    }
    assert(s.ejectable(key));
    if !ejections.contains(OutlierChange::Ejected(key)) {
        assert(!middle.has_room(max_percent));
    }
}

/// Room goes to those that are asked for first: an endpoint is not ejected where one that was asked for
/// before it, that is in the topology and not ejected, is passed over.
pub proof fn the_first_requests_are_served_first<K>(
    s: DetectorState<K>,
    requests: Seq<K>,
    now: nat,
    duration: nat,
    max_percent: nat,
    i: int,
    later: K,
)
    requires
        s.well_formed(),
        0 <= i < requests.len(),
        s.active.contains(requests[i]),
        !s.ejected.contains(requests[i]),
        !requests.take(i + 1).contains(later),
    ensures
        ({
            let changes = s.round(requests, now, duration, max_percent).1;
            changes.contains(OutlierChange::Ejected(later)) ==> changes.contains(
                OutlierChange::Ejected(requests[i]),
            )
        }),
{
    let (middle, ejections) = s.eject_all(requests, now + duration, max_percent);
    let (t, restorations) = middle.uneject(now);
    requests_eject_while_there_is_room(s, requests, now + duration, max_percent);
    time_restores_exactly_the_due(middle, now);
    lemma_concat_contains(ejections, restorations);
    lemma_served_in_order(s, requests, now + duration, max_percent, i, later);
}

proof fn lemma_served_in_order<K>(
    s: DetectorState<K>,
    requests: Seq<K>,
    until: nat,
    max_percent: nat,
    i: int,
    later: K,
)
    requires
        s.well_formed(),
        0 <= i < requests.len(),
        s.ejectable(requests[i]),
        !requests.take(i + 1).contains(later),
    ensures
        ({
            let ejections = s.eject_all(requests, until, max_percent).1;
            ejections.contains(OutlierChange::Ejected(later)) ==> ejections.contains(
                OutlierChange::Ejected(requests[i]),
            )
        }),
    decreases requests.len(),
{
    requests_eject_while_there_is_room(s, requests, until, max_percent);
    let rest = requests.drop_last();
    let last = requests.last();
    requests_eject_while_there_is_room(s, rest, until, max_percent);
    if i == requests.len() - 1 {
        assert(requests.take(i + 1) =~= requests);
    } else {
        assert(rest.take(i + 1) =~= requests.take(i + 1));
        assert(rest[i] == requests[i]);
        assert(rest.contains(rest[i]));
        lemma_served_in_order(s, rest, until, max_percent, i, later);
        let before = s.eject_all(rest, until, max_percent).1;
        lemma_push_contains(before, OutlierChange::Ejected(last));
    }
}

/// An ejection ends on time. An endpoint whose ejection a poll at `now` reports is restored by no poll
/// that comes less than the duration later, and by the first that does not, whatever else happens in
/// between, as long as it stays in the topology.
pub proof fn an_ejection_ends_on_time<K>(
    s: DetectorState<K>,
    requests: Seq<K>,
    now: nat,
    key: K,
    between: Seq<DetectorEvent<K>>,
    later_requests: Seq<K>,
    later: nat,
    duration: nat,
    max_percent: nat,
)
    requires
        s.well_formed(),
        duration > 0,
        s.round(requests, now, duration, max_percent).1.contains(OutlierChange::Ejected(key)),
        forall|i: int|
            0 <= i < between.len() ==> match #[trigger] between[i] {
                DetectorEvent::Added(_) => true,
                DetectorEvent::Removed(k) => k != key,
                DetectorEvent::Polled { requests: _, now: then } => then < now + duration,
            },
    ensures
        ({
            let t = s.round(requests, now, duration, max_percent).0;
            let u = t.after_all(between, duration, max_percent);
            let changes = u.round(later_requests, later, duration, max_percent).1;
            &&& changes.contains(OutlierChange::Unejected(key)) <==> later >= now + duration
            &&& !changes.contains(OutlierChange::Ejected(key))
            &&& t.times_reported(
                between,
                OutlierChange::Unejected(key),
                duration,
                max_percent,
            ) == 0
            &&& t.times_reported(between, OutlierChange::Ejected(key), duration, max_percent) == 0
        }),
{
    let end = now + duration;
    let t = s.round(requests, now, duration, max_percent).0;
    an_ejection_is_queued_to_end(s, requests, now, duration, max_percent, key);
    assert forall|i: int| 0 <= i < between.len() implies leaves_ejected(
        #[trigger] between[i],
        key,
        end,
    ) by {}
    an_ejection_lasts_its_time(
        t,
        key,
        end,
        between,
        later_requests,
        later,
        duration,
        max_percent,
    );
    lemma_nothing_is_reported_early(t, key, end, between, duration, max_percent);
}

/// A round reports its ejections first, in the order in which they were first asked for, and then its
/// restorations, those whose ejections ended sooner before the others.
pub proof fn changes_are_reported_in_order<K>(
    s: DetectorState<K>,
    requests: Seq<K>,
    now: nat,
    duration: nat,
    max_percent: nat,
    i: int,
    j: int,
    first: K,
    second: K,
)
    requires
        s.well_formed(),
        0 <= i < j < s.round(requests, now, duration, max_percent).1.len(),
    ensures
        ({
            let changes = s.round(requests, now, duration, max_percent).1;
            &&& changes[i] is Unejected ==> changes[j] is Unejected
            &&& changes[i] == OutlierChange::Ejected(first) && changes[j] == OutlierChange::Ejected(
                second,
            ) ==> forall|n: int|
                0 <= n <= requests.len() && (#[trigger] requests.take(n)).contains(second)
                    ==> requests.take(n).contains(first)
            &&& changes[i] == OutlierChange::Unejected(first) && changes[j]
                == OutlierChange::Unejected(second) ==> forall|end: nat, other: nat|
                #![trigger s.pending.contains((first, end)), s.pending.contains((second, other))]
                s.pending.contains((first, end)) && s.pending.contains((second, other)) ==> end
                    <= other
        }),
{
    let until = now + duration;
    let (middle, ejections) = s.eject_all(requests, until, max_percent);
    let (t, restorations) = middle.uneject(now);
    let changes = ejections + restorations;
    requests_eject_while_there_is_room(s, requests, until, max_percent);
    time_restores_exactly_the_due(middle, now);
    assert(forall|n: int| 0 <= n < ejections.len() ==> ejections.contains(#[trigger] ejections[n]));
    assert(forall|n: int|
        0 <= n < restorations.len() ==> restorations.contains(#[trigger] restorations[n]));
    let e = ejections.len() as int;
    if j < e {
        assert(ejections.contains(ejections[i]) && ejections.contains(ejections[j]));
        if changes[i] == OutlierChange::Ejected(first) && changes[j] == OutlierChange::Ejected(
            second,
        ) {
            lemma_ejected_in_order(s, requests, until, max_percent, i, j, first, second);
        }
    } else {
        assert(restorations.contains(restorations[j - e]));
        if i >= e {
            assert(restorations.contains(restorations[i - e]));
            if changes[i] == OutlierChange::Unejected(first) && changes[j]
                == OutlierChange::Unejected(second) {
                lemma_restored_in_order(middle, now, i - e, j - e, first, second);
                assert forall|end: nat, other: nat|
                    #![trigger s.pending.contains((first, end)), s.pending.contains((second, other))]
                    s.pending.contains((first, end)) && s.pending.contains(
                        (second, other),
                    ) implies end <= other by {
                    assert(middle.pending.contains((first, end)));
                    assert(middle.pending.contains((second, other)));
                }
            }
        } else {
            assert(ejections.contains(ejections[i]));
        }
    }
}

proof fn lemma_ejected_in_order<K>(
    s: DetectorState<K>,
    requests: Seq<K>,
    until: nat,
    max_percent: nat,
    i: int,
    j: int,
    first: K,
    second: K,
)
    requires
        s.well_formed(),
        0 <= i < j < s.eject_all(requests, until, max_percent).1.len(),
        s.eject_all(requests, until, max_percent).1[i] == OutlierChange::Ejected(first),
        s.eject_all(requests, until, max_percent).1[j] == OutlierChange::Ejected(second),
    ensures
        forall|n: int|
            0 <= n <= requests.len() && (#[trigger] requests.take(n)).contains(second)
                ==> requests.take(n).contains(first),
    decreases requests.len(),
{
    let rest = requests.drop_last();
    let last = requests.last();
    let (before, made) = s.eject_all(rest, until, max_percent);
    let (_, changes) = s.eject_all(requests, until, max_percent);
    requests_eject_while_there_is_room(s, rest, until, max_percent);
    requests_eject_while_there_is_room(s, requests, until, max_percent);
    assert(forall|n: int| 0 <= n < made.len() ==> made.contains(#[trigger] made[n]));
    assert(i < made.len());
    assert(made[i] == changes[i]);
    assert(rest.contains(first));
    if j < made.len() {
        assert(made[j] == changes[j]);
        lemma_ejected_in_order(s, rest, until, max_percent, i, j, first, second);
        assert forall|n: int|
            0 <= n <= requests.len() && (#[trigger] requests.take(n)).contains(
                second,
            ) implies requests.take(n).contains(first) by {
            if n < requests.len() {
                assert(requests.take(n) =~= rest.take(n));
            } else {
                assert(requests.take(n) =~= requests);
                assert(requests =~= rest.push(last));
                lemma_push_contains(rest, last);
            }
        }
    } else {
        assert(second == last);
        assert(before.ejectable(last));
        assert forall|n: int|
            0 <= n <= requests.len() && (#[trigger] requests.take(n)).contains(
                second,
            ) implies requests.take(n).contains(first) by {
            if n < requests.len() {
                // An endpoint that was asked for before and was then not ejected was passed over for
                // want of room, and is not ejected now
                let p = choose|p: int| 0 <= p < requests.take(n).len() && requests.take(n)[p]
                    == second;
                assert(rest[p] == second);
                assert(rest.contains(second));
                assert(s.ejectable(second));
                assert(!made.contains(OutlierChange::Ejected(second)));
                assert(!before.has_room(max_percent));
            } else {
                assert(requests.take(n) =~= requests);
                assert(requests =~= rest.push(last));
                lemma_push_contains(rest, last);
            }
        }
    }
}

proof fn lemma_restored_in_order<K>(
    s: DetectorState<K>,
    now: nat,
    i: int,
    j: int,
    first: K,
    second: K,
)
    requires
        s.well_formed(),
        0 <= i < j < s.uneject(now).1.len(),
        s.uneject(now).1[i] == OutlierChange::Unejected(first),
        s.uneject(now).1[j] == OutlierChange::Unejected(second),
    ensures
        forall|end: nat, other: nat|
            #![trigger s.pending.contains((first, end)), s.pending.contains((second, other))]
            s.pending.contains((first, end)) && s.pending.contains((second, other)) ==> end
                <= other,
{
    lemma_restored_by_place(s, now, i);
    lemma_restored_by_place(s, now, j);
    lemma_queued_are_ejected(s);
    assert(s.pending[i].0 == first && s.pending[j].0 == second);
    assert(s.pending.contains(s.pending[i]) && s.pending.contains(s.pending[j]));
    assert forall|end: nat, other: nat|
        #![trigger s.pending.contains((first, end)), s.pending.contains((second, other))]
        s.pending.contains((first, end)) && s.pending.contains((second, other)) implies end
        <= other by {
        assert(s.pending.contains((first, s.pending[i].1)));
        assert(s.pending.contains((second, s.pending[j].1)));
        assert(end == s.pending[i].1);
        assert(other == s.pending[j].1);
    }
}

/// The endpoints that are restored are the first that are queued, in their order.
proof fn lemma_restored_by_place<K>(s: DetectorState<K>, now: nat, i: int)
    requires
        s.well_formed(),
        0 <= i < s.uneject(now).1.len(),
    ensures
        i < s.pending.len(),
        s.uneject(now).1[i] == OutlierChange::Unejected(s.pending[i].0),
    decreases s.pending.len(),
{
    if i > 0 {
        lemma_end_first_well_formed(s);
        lemma_restored_by_place(s.end_first(), now, i - 1);
    }
}

}
