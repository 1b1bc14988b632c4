//! Load balancer and picker traits:
//! - [`LbPicker`]: Trait for endpoint selection algorithms
//! - [`P2cPicker`]: Power-of-two-choices picker implementation
//! - [`LoadBalancer`]: Balances requests across endpoints

use crate::cluster::loadbalance::Readiness;
use crate::ext::maps::{batch_updates, into_entries, unshare};
use crate::ext::random::{rng_from_os, rng_from_seed};
use crate::lb::discover::{
    a_batch_stands_for_its_updates, apply_batch, batch_after, batch_after_all, last_update,
    services_after_all, the_last_update_wins, update_view, update_views, EndpointUpdate,
    EndpointUpdateCache,
};
use crate::metric::{always_lower, below, integers_compare_by_value};
use crate::sampling::{draw_two, drew_two, two_drawn};
use dashmap::DashMap;
use rand::rngs::SmallRng;
use std::marker::PhantomData;
use std::sync::Arc;
use vstd::prelude::*;

verus! {

/// The type of endpoint change.
#[derive(Debug, Clone, Copy, PartialEq, Eq, Structural)]
pub enum EndpointChangeType {
    /// An endpoint was inserted or updated.
    Insert,
    /// An endpoint was removed.
    Remove,
}

/// Which readings of the load at an index are possible.
pub type Readings<M> = spec_fn(usize, Option<M>) -> bool;

/// The readings that a function gives.
pub open spec fn readings_of<M, F: Fn(usize) -> Option<M>>(load: F) -> Readings<M> {
    |i: usize, l: Option<M>| call_ensures(load, (i,), l)
}

/// Trait for load balancing picker algorithms.
///
/// Pickers select an endpoint from the ready ones for each request.
/// Different implementations provide different algorithms (P2C, round-robin, sticky, etc.).
///
/// Pickers are notified of endpoint changes via [`on_endpoint_change`](Self::on_endpoint_change),
/// allowing them to maintain internal state (e.g., consistent hashing rings).
pub trait LbPicker<M, Req> {
    /// The endpoint changes that the picker has been notified of, in order.
    spec fn notified(&self) -> Seq<(Seq<char>, EndpointChangeType)>;

    /// Whether the picker's way of picking allows the choice for the request.
    spec fn allows(
        &self,
        ready_len: usize,
        readings: Readings<M>,
        request: &Req,
        picked: Option<usize>,
    ) -> bool;

    /// Called when an endpoint is inserted or removed.
    ///
    /// Pickers can use this to maintain internal state like hash rings.
    /// This is called before the change is applied to the ready endpoints.
    fn on_endpoint_change(&mut self, key: &str, change: EndpointChangeType)
        ensures
            final(self).notified() == old(self).notified().push((key@, change)),
    ;

    /// Pick an endpoint index for the given request.
    ///
    /// - `ready_len`: The number of endpoints that are ready
    /// - `load`: The load of the ready endpoint at an index, if there is one
    /// - `request`: The incoming request (can be used for sticky routing)
    ///
    /// Returns the selected endpoint index, or `None` if no endpoint is available.
    fn pick<F: Fn(usize) -> Option<M>>(&mut self, ready_len: usize, load: F, request: &Req) -> (
        picked: Option<usize>)
        requires
            forall|i: usize| i < ready_len ==> call_requires(load, (i,)),
        ensures
            final(self).notified() == old(self).notified(),
            old(self).allows(ready_len, readings_of(load), request, picked),
            picked matches Some(i) ==> i < ready_len,
            ready_len > 0 && all_loaded(ready_len, readings_of(load)) ==> picked is Some,
    ;
}

/// Whether the load of every ready endpoint can be read.
pub open spec fn all_loaded<M>(ready_len: usize, readings: Readings<M>) -> bool {
    forall|i: usize, l: Option<M>| i < ready_len && #[trigger] readings(i, l) ==> l is Some
}

/// Whether the index is chosen of the two, by their loads: that of the lower load, the first where
/// the loads are equal; none where a load is missing.
pub open spec fn chosen_index<M: PartialOrd>(
    idx1: usize,
    load1: Option<M>,
    idx2: usize,
    load2: Option<M>,
    picked: Option<usize>,
) -> bool {
    match (load1, load2) {
        (Some(l1), Some(l2)) => exists|second: bool| #[trigger]
            below(l2, l1, second) && picked == (if second {
                Some(idx2)
            } else {
                Some(idx1)
            }),
        _ => picked is None,
    }
}

/// Whether `picked` is what is chosen of the two indices, by readings of their loads.
pub open spec fn chosen_of_two<M: PartialOrd>(
    readings: Readings<M>,
    idx1: usize,
    idx2: usize,
    picked: Option<usize>,
) -> bool {
    exists|load1: Option<M>, load2: Option<M>|
        #![trigger readings(idx1, load1), readings(idx2, load2)]
        readings(idx1, load1) && readings(idx2, load2) && chosen_index(
            idx1,
            load1,
            idx2,
            load2,
            picked,
        )
}

/// Whether `picked` is a choice that two random indices allow: none where there is no endpoint, the
/// only one where there is one, else what is chosen of two that were drawn from all.
pub open spec fn p2c_choice<M: PartialOrd>(
    ready_len: usize,
    readings: Readings<M>,
    picked: Option<usize>,
) -> bool {
    if ready_len == 0 {
        picked is None
    } else if ready_len == 1 {
        picked == Some(0usize)
    } else {
        exists|i: usize, j: usize|
            i < ready_len && j < ready_len && i != j && two_drawn(ready_len, i, j)
                && #[trigger] chosen_of_two(readings, i, j, picked)
    }
}

/// Chooses one of two indices by their loads.
pub fn choose_index<M: PartialOrd>(
    idx1: usize,
    load1: Option<M>,
    idx2: usize,
    load2: Option<M>,
) -> (picked: Option<usize>)
    ensures
        chosen_index(idx1, load1, idx2, load2, picked),
{
    match (load1, load2) {
        (Some(l1), Some(l2)) => {
            let second = l2 < l1;
            assert(below(l2, l1, second));
            if second {
                Some(idx2)
            } else {
                Some(idx1)
            }
        },
        _ => None,
    }
}

/// Power-of-two-choices (P2C) picker.
///
/// P2C randomly selects two endpoints and picks the one with lower load.
/// This provides good load distribution with O(1) selection time.
pub struct P2cPicker {
    rng: SmallRng,
    notified: Ghost<Seq<(Seq<char>, EndpointChangeType)>>,
}

impl P2cPicker {
    /// The generator that indices are drawn by.
    pub closed spec fn generator(&self) -> SmallRng {
        self.rng
    }

    /// The endpoint changes that the picker has been notified of, in order.
    pub closed spec fn told(&self) -> Seq<(Seq<char>, EndpointChangeType)> {
        self.notified@
    }

    /// Whether the generator was made from the seed.
    pub closed spec fn is_seeded_by(&self, seed: u64) -> bool {
        call_ensures(rng_from_seed, (seed,), self.rng)
    }

    /// Whether the generator was seeded by the operating system.
    pub closed spec fn is_seeded_by_the_system(&self) -> bool {
        call_ensures(rng_from_os, (), self.rng)
    }

    /// Creates a new P2C picker with the given random seed.
    pub fn new(seed: u64) -> (picker: Self)
        ensures
            picker.is_seeded_by(seed),
            picker.told() == Seq::<(Seq<char>, EndpointChangeType)>::empty(),
    {
        P2cPicker { rng: rng_from_seed(seed), notified: Ghost(Seq::empty()) }
    }

    /// Creates a new P2C picker with a random seed from OS entropy.
    pub fn from_entropy() -> (picker: Self)
        ensures
            picker.is_seeded_by_the_system(),
            picker.told() == Seq::<(Seq<char>, EndpointChangeType)>::empty(),
    {
        P2cPicker { rng: rng_from_os(), notified: Ghost(Seq::empty()) }
    }
}

impl<M: PartialOrd, Req> LbPicker<M, Req> for P2cPicker {
    open spec fn notified(&self) -> Seq<(Seq<char>, EndpointChangeType)> {
        self.told()
    }

    open spec fn allows(
        &self,
        ready_len: usize,
        readings: Readings<M>,
        request: &Req,
        picked: Option<usize>,
    ) -> bool {
        p2c_choice(ready_len, readings, picked)
    }

    fn on_endpoint_change(&mut self, key: &str, change: EndpointChangeType)
        ensures
            final(self).generator() == old(self).generator(),
    {
        // P2C doesn't need to track endpoint changes - it picks randomly from the ready endpoints
        self.notified = Ghost(self.notified@.push((key@, change)));
    }

    fn pick<F: Fn(usize) -> Option<M>>(&mut self, ready_len: usize, load: F, _request: &Req) -> (
        picked: Option<usize>)
        ensures
            ready_len < 2 ==> final(self).generator() == old(self).generator(),
            ready_len >= 2 ==> exists|
                one: &mut SmallRng,
                two: &mut SmallRng,
                i: usize,
                j: usize,
            |
                {
                    &&& #[trigger] drew_two(one, two, ready_len, i, j)
                    &&& *one == old(self).generator()
                    &&& *two == *final(one)
                    &&& *final(two) == final(self).generator()
                    &&& chosen_of_two(readings_of(load), i, j, picked)
                },
    {
        if ready_len == 0 {
            return None;
        }
        if ready_len == 1 {
            return Some(0);
        }
        // Pick two random indices
        let (idx1, idx2) = draw_two(&mut self.rng, ready_len);
        // Compare the load of the endpoints at those indices
        let load1 = load(idx1);
        let load2 = load(idx2);
        let ghost read1 = load1;
        let ghost read2 = load2;
        let picked = choose_index(idx1, load1, idx2, load2);
        proof {
            let readings = readings_of(load);
            assert(readings(idx1, read1) && readings(idx2, read2));
            assert(chosen_of_two(readings, idx1, idx2, picked));
        }
        picked
    }
}

/// Of exactly two endpoints, the one whose load always reads lower is picked.
pub proof fn of_two_endpoints_the_less_loaded_is_picked<M: PartialOrd>(
    readings: Readings<M>,
    low: usize,
    high: usize,
    picked: Option<usize>,
)
    requires
        (low == 0 && high == 1) || (low == 1 && high == 0),
        forall|a: Option<M>, b: Option<M>|
            #![trigger readings(low, a), readings(high, b)]
            readings(low, a) && readings(high, b) ==> a is Some && b is Some && always_lower(
                a->0,
                b->0,
            ),
        p2c_choice(2, readings, picked),
    ensures
        picked == Some(low),
{
    let (i, j) = choose|i: usize, j: usize|
        i < 2 && j < 2 && i != j && two_drawn(2, i, j) && #[trigger] chosen_of_two(
            readings,
            i,
            j,
            picked,
        );
    assert(chosen_of_two(readings, i, j, picked));
}

/// What is picked rests on the two indices that were drawn and on their loads alone: where the
/// comparison of the loads has one answer, as that of integers has, two pickers that draw the same and
/// read the same pick alike, whatever changes they were notified of.
pub proof fn equal_draws_and_loads_pick_alike<M: PartialOrd>(
    idx1: usize,
    load1: Option<M>,
    idx2: usize,
    load2: Option<M>,
    one: Option<usize>,
    other: Option<usize>,
)
    requires
        forall|l1: M, l2: M, a: bool, b: bool|
            load1 == Some(l1) && load2 == Some(l2) && #[trigger] below(l2, l1, a)
                && #[trigger] below(l2, l1, b) ==> a == b,
        chosen_index(idx1, load1, idx2, load2, one),
        chosen_index(idx1, load1, idx2, load2, other),
    ensures
        one == other,
{
}

/// What a change tells a picker.
pub open spec fn notice(update: EndpointUpdate<Seq<char>, u64>) -> (
    Seq<char>,
    EndpointChangeType,
) {
    (
        update.spec_key(),
        if update is Insert {
            EndpointChangeType::Insert
        } else {
            EndpointChangeType::Remove
        },
    )
}

/// What a sequence of changes tells a picker.
pub open spec fn notices(updates: Seq<EndpointUpdate<Seq<char>, u64>>) -> Seq<
    (Seq<char>, EndpointChangeType),
> {
    updates.map_values(|u: EndpointUpdate<Seq<char>, u64>| notice(u))
}

/// Balances requests across multiple endpoints.
///
/// `LoadBalancer` consumes batched updates from an [`EndpointUpdateCache`],
/// and uses an [`LbPicker`] to select endpoints for incoming requests. The services themselves,
/// and which of them are ready, are its owner's.
pub struct LoadBalancer<P, M, Req> {
    cache: EndpointUpdateCache,
    picker: P,
    _marker: PhantomData<(M, Req)>,
}

/// Whether the updates are those of the batch, each once.
pub open spec fn spells_out(
    updates: Seq<EndpointUpdate<Seq<char>, u64>>,
    batch: Map<Seq<char>, Option<u64>>,
) -> bool {
    &&& forall|i: int, j: int|
        0 <= i < j < updates.len() ==> (#[trigger] updates[i]).spec_key() != (
        #[trigger] updates[j]).spec_key()
    &&& forall|i: int|
        0 <= i < updates.len() ==> batch.contains_key((#[trigger] updates[i]).spec_key())
            && batch[updates[i].spec_key()] == updates[i].spec_service()
    &&& forall|k: Seq<char>| #[trigger]
        batch.contains_key(k) ==> exists|i: int|
            0 <= i < updates.len() && (#[trigger] updates[i]).spec_key() == k
}

/// Whether the batch, asked for by its owner, was not given out, as somebody else holds it too.
pub closed spec fn held_elsewhere(batch: Arc<DashMap<String, Option<u64>>>) -> bool {
    call_ensures(unshare, (batch,), None)
}

impl<P: LbPicker<M, Req>, M, Req> LoadBalancer<P, M, Req> {
    /// The updates that have not been consumed.
    pub closed spec fn pending(&self) -> Map<Seq<char>, Option<u64>> {
        self.cache.pending()
    }

    /// The picker.
    pub closed spec fn picker(&self) -> P {
        self.picker
    }

    /// Creates a new `LoadBalancer` with the given picker.
    pub fn new(picker: P) -> (balancer: Self)
        ensures
            balancer.picker() == picker,
            balancer.pending() == Map::<Seq<char>, Option<u64>>::empty(),
    {
        LoadBalancer { cache: EndpointUpdateCache::new(), picker, _marker: PhantomData }
    }

    /// Takes in what a poll of discovery has yielded. Returns whether to poll on.
    pub fn on_discovered<E>(
        &mut self,
        polled: Option<Result<EndpointUpdate<String, u64>, E>>,
    ) -> (go_on: bool)
        ensures
            go_on == (polled is Some),
            final(self).picker() == old(self).picker(),
            final(self).pending() == (match polled {
                Some(Ok(update)) => batch_after(
                    old(self).pending(),
                    update_view(update),
                ),
                _ => old(self).pending(),
            }),
    {
        self.cache.on_discovered(polled)
    }

    /// Turns the entries of a batch into updates, and notifies the picker of each.
    fn apply_entries(&mut self, entries: Vec<(String, Option<u64>)>) -> (updates: Vec<
        EndpointUpdate<String, u64>,
    >)
        ensures
            final(self).pending() == old(self).pending(),
            final(self).picker().notified() == old(self).picker().notified() + notices(
                update_views(updates@),
            ),
            updates@.len() == entries@.len(),
            forall|i: int|
                0 <= i < updates@.len() ==> (#[trigger] update_views(updates@)[i]).spec_key()
                    == entries@[i].0@ && update_views(updates@)[i].spec_service() == entries@[i].1,
    {
        let ghost all = entries@;
        let ghost told = self.picker.notified();
        let mut updates: Vec<EndpointUpdate<String, u64>> = Vec::new();
        assert(told =~= told + notices(update_views(updates@)));
        for entry in it: entries
            invariant
                it.seq() == all,
                self.pending() == old(self).pending(),
                self.picker.notified() == told + notices(update_views(updates@)),
                updates@.len() == it.index(),
                forall|i: int|
                    0 <= i < updates@.len() ==> (#[trigger] update_views(updates@)[i]).spec_key()
                        == all[i].0@ && update_views(updates@)[i].spec_service() == all[i].1,
        {
            let ghost before = updates@;
            let (key, value) = entry;
            let update = match value {
                Some(service) => {
                    self.picker.on_endpoint_change(key.as_str(), EndpointChangeType::Insert);
                    EndpointUpdate::Insert(key, service)
                },
                None => {
                    self.picker.on_endpoint_change(key.as_str(), EndpointChangeType::Remove);
                    EndpointUpdate::Remove(key)
                },
            };
            updates.push(update);
            proof {
                assert(update_views(updates@) =~= update_views(before).push(update_view(update)));
                assert(notices(update_views(updates@)) =~= notices(update_views(before)).push(
                    notice(update_view(update)),
                ));
                assert(self.picker.notified() =~= told + notices(update_views(updates@)));
            }
        }
        updates
    }

    /// Takes in a batch, or nothing where somebody else still holds it: then the updates are
    /// skipped. The updates of the batch come out once each, in no particular order, and the picker
    /// has been notified of each, in that order; the endpoint of each is to be evicted and, where it
    /// is inserted, its service to be added.
    pub fn apply_updates(&mut self, batch: Option<DashMap<String, Option<u64>>>) -> (updates: Option<
        Vec<EndpointUpdate<String, u64>>,
    >)
        ensures
            final(self).pending() == old(self).pending(),
            match batch {
                Some(b) => updates matches Some(u) && spells_out(
                    update_views(u@),
                    batch_updates(b),
                ) && final(self).picker().notified() == old(self).picker().notified() + notices(
                    update_views(u@),
                ),
                None => updates is None && final(self).picker() == old(self).picker(),
            },
    {
        match batch {
            Some(owned) => {
                let entries = into_entries(owned);
                let updates = self.apply_entries(entries);
                proof {
                    let views = update_views(updates@);
                    let all = batch_updates(owned);
                    assert forall|i: int, j: int| 0 <= i < j < views.len() implies (
                    #[trigger] views[i]).spec_key() != (#[trigger] views[j]).spec_key() by {
                        assert(entries@[i].0@ != entries@[j].0@);
                    }
                    assert forall|i: int| 0 <= i < views.len() implies all.contains_key(
                        (#[trigger] views[i]).spec_key(),
                    ) && all[views[i].spec_key()] == views[i].spec_service() by {
                        assert(all.contains_key(entries@[i].0@));
                    }
                    assert forall|k: Seq<char>| #[trigger] all.contains_key(k) implies exists|i: int|
                        0 <= i < views.len() && (#[trigger] views[i]).spec_key() == k by {
                        let i = choose|i: int|
                            0 <= i < entries@.len() && (#[trigger] entries@[i]).0@ == k;
                        assert(views[i].spec_key() == k);
                    }
                }
                Some(updates)
            },
            None => None,
        }
    }

    /// Consumes the pending updates, and takes them in. They are skipped where somebody else still
    /// holds the batch, which should not happen.
    pub fn consume_updates(&mut self) -> (updates: Option<Vec<EndpointUpdate<String, u64>>>)
        ensures
            final(self).pending() == Map::<Seq<char>, Option<u64>>::empty(),
            match updates {
                Some(u) => spells_out(update_views(u@), old(self).pending())
                    && final(self).picker().notified() == old(self).picker().notified() + notices(
                    update_views(u@),
                ),
                None => final(self).picker() == old(self).picker() && exists|
                    batch: Arc<DashMap<String, Option<u64>>>,
                |
                    #[trigger] held_elsewhere(batch) && batch_updates(*batch)
                        == old(self).pending(),
            },
    {
        let batch = self.cache.consume();
        let ghost consumed = batch;
        let owned = unshare(batch);
        assert(owned is None ==> held_elsewhere(consumed));
        self.apply_updates(owned)
    }

    /// Whether a request can be made, given how many endpoints are ready and how many are not yet.
    pub fn readiness(ready_len: usize, pending_len: usize) -> (ready: Readiness<()>)
        ensures
            ready == (if ready_len > 0 {
                Readiness::<()>::Ready
            } else {
                Readiness::<()>::Pending
            }),
    {
        if ready_len > 0 {
            Readiness::Ready
        } else if pending_len > 0 {
            Readiness::Pending
        } else {
            // No endpoints at all - keep polling for new ones
            Readiness::Pending
        }
    }

    /// Selects the index of the ready endpoint that takes the request.
    pub fn call<F: Fn(usize) -> Option<M>>(&mut self, ready_len: usize, load: F, request: &Req) -> (
        idx: usize)
        requires
            ready_len > 0,
            forall|i: usize| i < ready_len ==> call_requires(load, (i,)),
            all_loaded(ready_len, readings_of(load)),
        ensures
            idx < ready_len,
            old(self).picker().allows(ready_len, readings_of(load), request, Some(idx)),
            final(self).pending() == old(self).pending(),
            final(self).picker().notified() == old(self).picker().notified(),
    {
        match self.picker.pick(ready_len, load, request) {
            Some(idx) => idx,
            None => 0,
        }
    }
}

/// To take in the updates of a batch, in whatever order they come, is to apply the batch.
pub proof fn updates_of_a_batch_apply_it(
    services: Map<Seq<char>, u64>,
    updates: Seq<EndpointUpdate<Seq<char>, u64>>,
    batch: Map<Seq<char>, Option<u64>>,
)
    requires
        spells_out(updates, batch),
    ensures
        services_after_all(services, updates) == apply_batch(services, batch),
{
    let after = services_after_all(services, updates);
    assert forall|k: Seq<char>|
        after.contains_key(k) == apply_batch(services, batch).contains_key(k) && (
        #[trigger] after.contains_key(k) ==> after[k] == apply_batch(services, batch)[k]) by {
        the_last_update_wins(services, updates, k);
        match last_update(updates, k) {
            Some(i) => {
                assert(batch.contains_key(updates[i].spec_key()));
            },
            None => {},
        }
    }
    assert(after =~= apply_batch(services, batch));
}

/// Batching loses nothing: to take in the updates that are consumed, in whatever order they come, is
/// to take in the updates that were discovered since nothing was pending, one after the other.
pub proof fn consuming_loses_nothing(
    services: Map<Seq<char>, u64>,
    discovered: Seq<EndpointUpdate<Seq<char>, u64>>,
    consumed: Seq<EndpointUpdate<Seq<char>, u64>>,
)
    requires
        spells_out(consumed, batch_after_all(Map::empty(), discovered)),
    ensures
        services_after_all(services, consumed) == services_after_all(services, discovered),
{
    updates_of_a_batch_apply_it(services, consumed, batch_after_all(Map::empty(), discovered));
    a_batch_stands_for_its_updates(services, discovered);
}

/// Of the two loads the lower decides, the first where they are equal; nothing is chosen where a load is
/// missing.
pub proof fn the_lower_load_is_chosen(
    idx1: usize,
    load1: Option<u64>,
    idx2: usize,
    load2: Option<u64>,
    picked: Option<usize>,
)
    requires
        call_ensures(choose_index::<u64>, (idx1, load1, idx2, load2), picked),
    ensures
        load1 is Some && load2 is Some && load1->0 <= load2->0 ==> picked == Some(idx1),
        load1 is Some && load2 is Some && load1->0 > load2->0 ==> picked == Some(idx2),
        load1 is None || load2 is None ==> picked is None,
{
    match (load1, load2) {
        (Some(l1), Some(l2)) => {
            integers_compare_by_value(l2, l1);
        },
        _ => {},
    }
}

/// Of however many endpoints, two at least, one whose load always reads higher than that of every other
/// is never picked; another is.
pub proof fn the_most_loaded_endpoint_is_never_picked<M: PartialOrd>(
    ready_len: usize,
    readings: Readings<M>,
    high: usize,
    picked: Option<usize>,
)
    requires
        ready_len >= 2,
        high < ready_len,
        forall|i: usize, x: Option<M>| i < ready_len && #[trigger] readings(i, x) ==> x is Some,
        forall|i: usize, x: Option<M>, y: Option<M>|
            #![trigger readings(i, x), readings(high, y)]
            i < ready_len && i != high && readings(i, x) && readings(high, y) ==> always_lower(
                x->0,
                y->0,
            ),
        p2c_choice(ready_len, readings, picked),
    ensures
        picked is Some,
        picked->0 < ready_len,
        picked->0 != high,
{
    let (i, j) = choose|i: usize, j: usize|
        i < ready_len && j < ready_len && i != j && two_drawn(ready_len, i, j)
            && #[trigger] chosen_of_two(readings, i, j, picked);
    assert(chosen_of_two(readings, i, j, picked));
    let (load1, load2) = choose|load1: Option<M>, load2: Option<M>|
        #![trigger readings(i, load1), readings(j, load2)]
        readings(i, load1) && readings(j, load2) && chosen_index(i, load1, j, load2, picked);
    if i == high {
        assert(always_lower(load2->0, load1->0));
    }
    if j == high {
        assert(always_lower(load1->0, load2->0));
    }
}

/// Two endpoints or more are picked among by drawing two and taking the one of the lower load. Where each
/// endpoint has a load that every reading gives, what is picked is one of two distinct endpoints that
/// were drawn: the first, unless the load of the second is lower. Where there is only one endpoint it is
/// picked, and where there is none, none is.
pub proof fn the_less_loaded_of_the_two_drawn_is_picked(
    ready_len: usize,
    readings: Readings<u64>,
    loads: spec_fn(usize) -> u64,
    picked: Option<usize>,
)
    requires
        p2c_choice(ready_len, readings, picked),
        forall|i: usize, l: Option<u64>|
            i < ready_len && #[trigger] readings(i, l) ==> l == Some(loads(i)),
    ensures
        ready_len == 0 ==> picked is None,
        ready_len == 1 ==> picked == Some(0usize),
        ready_len >= 2 ==> exists|i: usize, j: usize| #[trigger]
            two_drawn(ready_len, i, j) && {
                &&& i < ready_len
                &&& j < ready_len
                &&& i != j
                &&& loads(i) <= loads(j) ==> picked == Some(i)
                &&& loads(i) > loads(j) ==> picked == Some(j)
            },
{
    if ready_len >= 2 {
        let (i, j) = choose|i: usize, j: usize|
            i < ready_len && j < ready_len && i != j && two_drawn(ready_len, i, j)
                && #[trigger] chosen_of_two(readings, i, j, picked);
        assert(chosen_of_two(readings, i, j, picked));
        let (load1, load2) = choose|load1: Option<u64>, load2: Option<u64>|
            #![trigger readings(i, load1), readings(j, load2)]
            readings(i, load1) && readings(j, load2) && chosen_index(i, load1, j, load2, picked);
        assert(load1 == Some(loads(i)));
        assert(load2 == Some(loads(j)));
        integers_compare_by_value(loads(j), loads(i));
    }
}

/// Whichever two distinct endpoints are drawn, the one of the lower load can be picked.
pub proof fn any_pair_that_is_drawn_can_be_picked_from(
    ready_len: usize,
    readings: Readings<u64>,
    i: usize,
    load1: Option<u64>,
    j: usize,
    load2: Option<u64>,
    picked: Option<usize>,
)
    requires
        ready_len >= 2,
        i < ready_len,
        j < ready_len,
        i != j,
        two_drawn(ready_len, i, j),
        readings(i, load1),
        readings(j, load2),
        call_ensures(choose_index::<u64>, (i, load1, j, load2), picked),
    ensures
        p2c_choice(ready_len, readings, picked),
{
    assert(chosen_of_two(readings, i, j, picked));
}

/// A request goes to an endpoint that is ready, and, where there are two or more, not to one whose load is
/// higher than that of every other.
pub proof fn a_request_avoids_the_most_loaded_endpoint<Req, F: Fn(usize) -> Option<u64>>(
    ready_len: usize,
    load: F,
    req: Req,
    loads: spec_fn(usize) -> u64,
    high: usize,
    idx: usize,
)
    requires
        ready_len >= 2,
        high < ready_len,
        forall|i: usize, l: Option<u64>|
            i < ready_len && #[trigger] call_ensures(load, (i,), l) ==> l == Some(loads(i)),
        forall|i: usize|
            i < ready_len && i != high ==> #[trigger] loads(i) < loads(high),
    ensures
        forall|lb: &mut LoadBalancer<P2cPicker, u64, Req>| #[trigger]
            call_ensures(
                LoadBalancer::<P2cPicker, u64, Req>::call::<F>,
                (lb, ready_len, load, &req),
                idx,
            ) ==> idx < ready_len && idx != high && (*final(lb)).pending() == (*lb).pending(),
{
    let readings = readings_of(load);
    assert forall|i: usize, x: Option<u64>, y: Option<u64>|
        #![trigger readings(i, x), readings(high, y)]
        i < ready_len && i != high && readings(i, x) && readings(high, y) implies always_lower(
        x->0,
        y->0,
    ) by {
        assert(x == Some(loads(i)));
        integers_compare_by_value(x->0, y->0);
        integers_compare_by_value(y->0, x->0);
    }
    assert forall|lb: &mut LoadBalancer<P2cPicker, u64, Req>| #[trigger]
        call_ensures(
            LoadBalancer::<P2cPicker, u64, Req>::call::<F>,
            (lb, ready_len, load, &req),
            idx,
        ) implies idx < ready_len && idx != high && (*final(lb)).pending() == (*lb).pending() by {
        assert(p2c_choice(ready_len, readings, Some(idx)));
        the_most_loaded_endpoint_is_never_picked(ready_len, readings, high, Some(idx));
    }
}

/// The balancer is ready exactly where an endpoint is.
pub proof fn ready_endpoints_make_the_balancer_ready<P: LbPicker<M, Req>, M, Req>(
    ready_len: usize,
    pending_len: usize,
    ready: Readiness<()>,
)
    requires
        call_ensures(
            LoadBalancer::<P, M, Req>::readiness,
            (ready_len, pending_len),
            ready,
        ),
    ensures
        ready_len > 0 ==> ready is Ready,
        ready_len == 0 ==> ready is Pending,
{
}

/// Consuming hands out, of each endpoint that is pending, one update: an insert of the service that is
/// pending or a removal. The picker is notified of each, in the order in which they come out, and
/// nothing is pending any more.
pub proof fn each_pending_update_comes_out_once<P: LbPicker<M, Req>, M, Req>(
    updates: Vec<EndpointUpdate<String, u64>>,
    key: Seq<char>,
)
    ensures
        forall|lb: &mut LoadBalancer<P, M, Req>| #[trigger]
            call_ensures(
                LoadBalancer::<P, M, Req>::consume_updates,
                (lb,),
                Some(updates),
            ) ==> {
                let pending = (*lb).pending();
                let told = (*lb).picker().notified();
                let now = (*final(lb)).picker().notified();
                &&& (*final(lb)).pending() == Map::<Seq<char>, Option<u64>>::empty()
                &&& now.len() == told.len() + updates@.len()
                &&& told.is_prefix_of(now)
                &&& forall|i: int|
                    0 <= i < updates@.len() ==> match #[trigger] updates@[i] {
                        EndpointUpdate::Insert(k, service) => pending.contains_key(k@)
                            && pending[k@] == Some(service) && now[told.len() + i] == (
                            k@,
                            EndpointChangeType::Insert,
                        ),
                        EndpointUpdate::Remove(k) => pending.contains_key(k@) && pending[k@] is None
                            && now[told.len() + i] == (k@, EndpointChangeType::Remove),
                    }
                &&& pending.contains_key(key) ==> exists|i: int|
                    0 <= i < updates@.len() && (#[trigger] updates@[i]).spec_key()@ == key
            },
{
    assert forall|lb: &mut LoadBalancer<P, M, Req>| #[trigger]
        call_ensures(
            LoadBalancer::<P, M, Req>::consume_updates,
            (lb,),
            Some(updates),
        ) implies {
        let pending = (*lb).pending();
        let told = (*lb).picker().notified();
        let now = (*final(lb)).picker().notified();
        &&& (*final(lb)).pending() == Map::<Seq<char>, Option<u64>>::empty()
        &&& now.len() == told.len() + updates@.len()
        &&& told.is_prefix_of(now)
        &&& forall|i: int|
            0 <= i < updates@.len() ==> match #[trigger] updates@[i] {
                EndpointUpdate::Insert(k, service) => pending.contains_key(k@) && pending[k@]
                    == Some(service) && now[told.len() + i] == (k@, EndpointChangeType::Insert),
                EndpointUpdate::Remove(k) => pending.contains_key(k@) && pending[k@] is None
                    && now[told.len() + i] == (k@, EndpointChangeType::Remove),
            }
        &&& pending.contains_key(key) ==> exists|i: int|
            0 <= i < updates@.len() && (#[trigger] updates@[i]).spec_key()@ == key
    } by {
        let pending = (*lb).pending();
        let told = (*lb).picker().notified();
        let now = (*final(lb)).picker().notified();
        let views = update_views(updates@);
        assert(spells_out(views, pending));
        assert(now == told + notices(views));
        assert(views.len() == updates@.len());
        assert forall|i: int| 0 <= i < updates@.len() implies match #[trigger] updates@[i] {
            EndpointUpdate::Insert(k, service) => pending.contains_key(k@) && pending[k@] == Some(
                service,
            ) && now[told.len() + i] == (k@, EndpointChangeType::Insert),
            EndpointUpdate::Remove(k) => pending.contains_key(k@) && pending[k@] is None
                && now[told.len() + i] == (k@, EndpointChangeType::Remove),
        } by {
            assert(views[i] == update_view(updates@[i]));
            assert(pending.contains_key(views[i].spec_key()));
            assert(notices(views)[i] == notice(views[i]));
        }
        if pending.contains_key(key) {
            let i = choose|i: int| 0 <= i < views.len() && (#[trigger] views[i]).spec_key() == key;
            assert(views[i] == update_view(updates@[i]));
            assert(updates@[i].spec_key()@ == key);
        }
    }
}

/// A new balancer has its picker and nothing pending. What discovery yields is pending in place of what
/// was pending for the endpoint; errors are passed over, and the end of discovery ends the polling.
pub proof fn a_balancer_keeps_what_is_discovered<P: LbPicker<M, Req>, M, Req, E>(
    picker: P,
    lb: LoadBalancer<P, M, Req>,
    key: String,
    service: u64,
    error: E,
    go_on: bool,
)
    ensures
        call_ensures(LoadBalancer::<P, M, Req>::new, (picker,), lb) ==> lb.picker() == picker
            && lb.pending() == Map::<Seq<char>, Option<u64>>::empty(),
        forall|lb: &mut LoadBalancer<P, M, Req>| #[trigger]
            call_ensures(
                LoadBalancer::<P, M, Req>::on_discovered::<E>,
                (lb, Some(Ok(EndpointUpdate::Insert(key, service)))),
                go_on,
            ) ==> go_on && (*final(lb)).pending() == (*lb).pending().insert(key@, Some(service)),
        forall|lb: &mut LoadBalancer<P, M, Req>| #[trigger]
            call_ensures(
                LoadBalancer::<P, M, Req>::on_discovered::<E>,
                (lb, Some(Ok(EndpointUpdate::Remove(key)))),
                go_on,
            ) ==> go_on && (*final(lb)).pending() == (*lb).pending().insert(key@, None),
        forall|lb: &mut LoadBalancer<P, M, Req>| #[trigger]
            call_ensures(
                LoadBalancer::<P, M, Req>::on_discovered::<E>,
                (lb, Some(Err(error))),
                go_on,
            ) ==> go_on && (*final(lb)).pending() == (*lb).pending(),
        forall|lb: &mut LoadBalancer<P, M, Req>| #[trigger]
            call_ensures(
                LoadBalancer::<P, M, Req>::on_discovered::<E>,
                (lb, None),
                go_on,
            ) ==> !go_on && (*final(lb)).pending() == (*lb).pending(),
{
}

/// A batch is skipped only where its owner was refused it, as somebody else holds it.
pub(crate) proof fn what_is_skipped_was_refused(batch: Arc<DashMap<String, Option<u64>>>)
    requires
        held_elsewhere(batch),
    ensures
        call_ensures(unshare, (batch,), None),
{
}

/// To be notified of endpoints is nothing to the picker: it records what it is told, and goes on drawing
/// from where it was.
pub proof fn notices_leave_the_generator_alone<M: PartialOrd, Req>(
    key: &str,
    change: EndpointChangeType,
)
    ensures
        forall|picker: &mut P2cPicker, none: ()|
            #![trigger call_ensures(
                <P2cPicker as LbPicker<M, Req>>::on_endpoint_change,
                (picker, key, change),
                none,
            )]
            call_ensures(
                <P2cPicker as LbPicker<M, Req>>::on_endpoint_change,
                (picker, key, change),
                none,
            ) ==> {
                &&& (*final(picker)).generator() == (*picker).generator()
                &&& LbPicker::<M, Req>::notified(&*final(picker)) == LbPicker::<M, Req>::notified(
                    &*picker,
                ).push((key@, change))
            },
{
}

}
