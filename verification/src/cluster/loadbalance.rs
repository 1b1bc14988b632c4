//! A load balancer over the endpoints of a cluster.

use crate::cluster::picker::{
    available, endpoints_after, lemma_pick_of_several, p2c_picked, the_ejected_alone_are_left_out,
    EndpointChange, P2cPicker, Picker,
};
use crate::endpoint::Load;
use crate::key::{clone_key, lawful_key};
use crate::lb::discover::{
    services_after, services_after_all, the_last_update_decides, EndpointUpdate, Polled,
};
use std::collections::{HashMap, HashSet};
use std::hash::Hash;
use vstd::prelude::*;

verus! {

/// Whether a service is ready to be called.
#[derive(Debug, Clone, Copy, PartialEq, Eq)]
pub enum Readiness<E> {
    /// It can be called.
    Ready,
    /// It cannot be called yet.
    Pending,
    /// It failed.
    Failed(E),
}

/// Why a call was not made.
#[derive(Debug, Clone, Copy, PartialEq, Eq, Structural)]
pub enum ClusterCallError {
    NoEndpoints,
    EndpointNotFound,
}

impl ClusterCallError {
    /// The error's text.
    pub open spec fn text(self) -> Seq<char> {
        match self {
            ClusterCallError::NoEndpoints => "no endpoints available"@,
            ClusterCallError::EndpointNotFound => "endpoint not found"@,
        }
    }

    /// The error's text.
    pub fn message(&self) -> (message: &'static str)
        ensures
            message@ == self.text(),
    {
        match self {
            ClusterCallError::NoEndpoints => "no endpoints available",
            ClusterCallError::EndpointNotFound => "endpoint not found",
        }
    }
}

/// What an update of the services tells a picker.
pub open spec fn change_of<K, S>(update: EndpointUpdate<K, S>) -> EndpointChange<K> {
    match update {
        EndpointUpdate::Insert(key, _) => EndpointChange::Insert(key),
        EndpointUpdate::Remove(key) => EndpointChange::Remove(key),
    }
}

/// What a sequence of updates of the services tells a picker.
pub open spec fn changes_of<K, S>(updates: Seq<EndpointUpdate<K, S>>) -> Seq<EndpointChange<K>> {
    updates.map_values(|u: EndpointUpdate<K, S>| change_of(u))
}

/// The endpoints that are left after a sequence of changes.
pub open spec fn endpoints_after_all<K>(keys: Set<K>, changes: Seq<EndpointChange<K>>) -> Set<K>
    decreases changes.len(),
{
    if changes.len() == 0 {
        keys
    } else {
        endpoints_after(endpoints_after_all(keys, changes.drop_last()), changes.last())
    }
}

/// A picker that is told of every update of the services stays in step with them: where it knew
/// exactly the endpoints that had a service, it knows exactly those that have one.
pub proof fn a_picker_that_is_told_stays_in_step<K, S>(
    services: Map<K, S>,
    updates: Seq<EndpointUpdate<K, S>>,
)
    ensures
        endpoints_after_all(services.dom(), changes_of(updates)) == services_after_all(
            services,
            updates,
        ).dom(),
    decreases updates.len(),
{
    if updates.len() > 0 {
        a_picker_that_is_told_stays_in_step(services, updates.drop_last());
        assert(changes_of(updates).drop_last() =~= changes_of(updates.drop_last()));
    }
    assert(endpoints_after_all(services.dom(), changes_of(updates)) =~= services_after_all(
        services,
        updates,
    ).dom());
}

/// A load balancer that uses a pluggable picker for endpoint selection.
///
/// This load balancer is optimistic about readiness: it is `Ready` in `poll_ready` as long as
/// there are endpoints available; the actual service readiness is awaited once an endpoint has
/// been picked for a call.
#[verifier::reject_recursive_types(K)]
pub struct ClusterLoadBalancer<K, S, P> {
    picker: P,
    services: HashMap<K, S>,
}

impl<K: Hash + Eq + Clone, S, P: Picker<S, Key = K>> ClusterLoadBalancer<K, S, P> {
    /// The services of the endpoints that the balancer tracks.
    pub closed spec fn services(&self) -> Map<K, S> {
        self.services@
    }

    /// The picker.
    pub closed spec fn picker(&self) -> P {
        self.picker
    }

    /// What every operation relies on and keeps.
    pub open spec fn inv(&self) -> bool {
        lawful_key::<K>() && self.picker().inv()
    }

    /// Whether the picker knows exactly the endpoints that are tracked.
    pub open spec fn in_step(&self) -> bool {
        self.picker().known() == self.services().dom()
    }

    /// Creates a new `ClusterLoadBalancer` with the given picker.
    pub fn new(picker: P) -> (balancer: Self)
        requires
            lawful_key::<K>(),
            picker.inv(),
        ensures
            balancer.inv(),
            balancer.services() == Map::<K, S>::empty(),
            balancer.picker() == picker,
            picker.known() == Set::<K>::empty() ==> balancer.in_step(),
    {
        let balancer = ClusterLoadBalancer { picker, services: HashMap::new() };
        assert(balancer.services().dom() =~= Set::<K>::empty());
        balancer
    }

    /// Returns the number of endpoints currently tracked by the balancer.
    pub fn len(&self) -> (len: usize)
        requires
            self.inv(),
        ensures
            len == self.services().dom().len(),
    {
        broadcast use vstd::std_specs::hash::group_hash_axioms;

        self.services.len()
    }

    /// Returns true if there are no endpoints.
    pub fn is_empty(&self) -> (empty: bool)
        requires
            self.inv(),
        ensures
            empty == (self.services() == Map::<K, S>::empty()),
    {
        let empty = self.services.is_empty();
        assert(empty ==> self.services() =~= Map::<K, S>::empty());
        empty
    }

    /// Takes in one change of the topology, and tells the picker.
    fn apply(&mut self, change: EndpointUpdate<K, S>)
        requires
            old(self).inv(),
        ensures
            final(self).inv(),
            final(self).services() == services_after(old(self).services(), change),
            final(self).picker().notified() == old(self).picker().notified().push(
                change_of(change),
            ),
            final(self).picker().known() == endpoints_after(
                old(self).picker().known(),
                change_of(change),
            ),
    {
        broadcast use vstd::std_specs::hash::group_hash_axioms;

        match change {
            EndpointUpdate::Insert(key, svc) => {
                let copy = clone_key(&key);
                self.services.insert(copy, svc);
                self.picker.update(EndpointChange::Insert(key));
            },
            EndpointUpdate::Remove(key) => {
                self.services.remove(&key);
                self.picker.update(EndpointChange::Remove(key));
            },
        }
    }

    /// Whether the balancer has an endpoint to send a request to.
    fn readiness<E>(&self) -> (ready: Readiness<E>)
        requires
            self.inv(),
        ensures
            ready == (if self.services() == Map::<K, S>::empty() {
                Readiness::<E>::Pending
            } else {
                Readiness::<E>::Ready
            }),
    {
        if self.is_empty() {
            Readiness::Pending
        } else {
            Readiness::Ready
        }
    }

    /// Takes in what one poll of discovery has yielded. `None` says to poll on; else polling is over,
    /// and the result says whether the balancer is ready.
    pub fn on_discovered<E>(&mut self, polled: Polled<K, S, E>) -> (ready: Option<Readiness<E>>)
        requires
            old(self).inv(),
        ensures
            final(self).inv(),
            old(self).in_step() ==> final(self).in_step(),
            match polled {
                Polled::Update(Ok(update)) => {
                    &&& ready is None
                    &&& final(self).services() == services_after(old(self).services(), update)
                    &&& final(self).picker().notified() == old(self).picker().notified().push(
                        change_of(update),
                    )
                    &&& final(self).picker().known() == endpoints_after(
                        old(self).picker().known(),
                        change_of(update),
                    )
                },
                Polled::Update(Err(e)) => *final(self) == *old(self) && ready == Some(
                    Readiness::Failed(e),
                ),
                Polled::Exhausted | Polled::Pending => *final(self) == *old(self) && ready == Some(
                    if old(self).services() == Map::<K, S>::empty() {
                        Readiness::<E>::Pending
                    } else {
                        Readiness::<E>::Ready
                    },
                ),
            },
    {
        match polled {
            Polled::Update(Ok(update)) => {
                let ghost told = update;
                self.apply(update);
                assert(endpoints_after(old(self).services().dom(), change_of(told))
                    =~= services_after(old(self).services(), told).dom());
                None
            },
            Polled::Update(Err(e)) => Some(Readiness::Failed(e)),
            // Discovery stream ended, or has no more changes right now
            Polled::Exhausted | Polled::Pending => Some(self.readiness()),
        }
    }

    /// Takes in the changes that discovery has yielded, and the error with which it failed after
    /// them, if it did. The picker is told of each change, in order.
    pub fn poll_ready<E>(
        &mut self,
        changes: Vec<EndpointUpdate<K, S>>,
        failure: Option<E>,
    ) -> (ready: Readiness<E>)
        requires
            old(self).inv(),
        ensures
            final(self).inv(),
            final(self).services() == services_after_all(old(self).services(), changes@),
            final(self).picker().notified() == old(self).picker().notified() + changes_of(
                changes@,
            ),
            final(self).picker().known() == endpoints_after_all(
                old(self).picker().known(),
                changes_of(changes@),
            ),
            old(self).in_step() ==> final(self).in_step(),
            ready == (match failure {
                Some(e) => Readiness::Failed(e),
                None => if final(self).services() == Map::<K, S>::empty() {
                    Readiness::Pending
                } else {
                    Readiness::Ready
                },
            }),
    {
        let ghost before = self.services();
        let ghost told = self.picker().notified();
        let ghost known = self.picker().known();
        let ghost all = changes@;
        assert(all.take(0) =~= Seq::<EndpointUpdate<K, S>>::empty());
        assert(told =~= told + changes_of(all.take(0)));
        for change in it: changes
            invariant
                it.seq() == all,
                self.inv(),
                self.services() == services_after_all(before, all.take(it.index() as int)),
                self.picker().notified() == told + changes_of(all.take(it.index() as int)),
                self.picker().known() == endpoints_after_all(
                    known,
                    changes_of(all.take(it.index() as int)),
                ),
        {
            let ghost at = it.index() as int;
            self.apply(change);
            proof {
                let done = changes_of(all.take(at));
                let more = changes_of(all.take(at + 1));
                assert(all.take(at + 1).drop_last() =~= all.take(at));
                assert(more =~= done.push(change_of(change)));
                assert(more.drop_last() =~= done);
                assert(self.picker().notified() =~= told + more);
            }
        }
        assert(all.take(all.len() as int) =~= all);
        proof {
            a_picker_that_is_told_stays_in_step(before, all);
        }
        match failure {
            Some(e) => Readiness::Failed(e),
            // Ready if we have endpoints
            None => self.readiness(),
        }
    }

    /// Picks an endpoint for a call, and hands out its service. Where the picker is in step with the
    /// balancer, this fails only for want of endpoints.
    pub fn call(&mut self) -> (picked: Result<&S, ClusterCallError>)
        requires
            old(self).inv(),
        ensures
            final(self).inv(),
            final(self).services() == old(self).services(),
            final(self).picker().known() == old(self).picker().known(),
            final(self).picker().notified() == old(self).picker().notified(),
            match picked {
                Ok(svc) => exists|k: K| #[trigger]
                    old(self).picker().allows(old(self).services(), Set::empty(), Some(k))
                        && old(self).services().contains_key(k) && old(self).services()[k] == *svc,
                Err(ClusterCallError::EndpointNotFound) => exists|k: K| #[trigger]
                    old(self).picker().allows(old(self).services(), Set::empty(), Some(k))
                        && !old(self).services().contains_key(k),
                Err(ClusterCallError::NoEndpoints) => old(self).picker().allows(
                    old(self).services(),
                    Set::empty(),
                    None,
                ),
            },
            old(self).in_step() ==> (picked is Err <==> old(self).services() == Map::<
                K,
                S,
            >::empty()),
            old(self).in_step() && picked is Err ==> picked->Err_0
                == ClusterCallError::NoEndpoints,
    {
        broadcast use vstd::std_specs::hash::group_hash_axioms;

        let ejected: HashSet<K> = HashSet::new();
        // Pick an endpoint
        let picked = self.picker.pick(&self.services, &ejected);
        assert(old(self).picker().allows(old(self).services(), Set::<K>::empty(), picked));
        match picked {
            Some(key) => match self.services.get(&key) {
                Some(svc) => Ok(svc),
                None => Err(ClusterCallError::EndpointNotFound),
            },
            None => {
                proof {
                    if old(self).in_step() {
                        assert(old(self).picker().known() - ejected@ =~= old(self).picker().known());
                        assert(self.services() =~= Map::<K, S>::empty());
                    }
                }
                Err(ClusterCallError::NoEndpoints)
            },
        }
    }
}

/// What a poll of discovery comes to. An inserted endpoint has its service and a removed one has none,
/// the picker is told of just that, and polling goes on; no other endpoint is touched. An error is given
/// out at once. Where there is nothing more, the balancer is ready exactly where it has an endpoint.
pub proof fn a_poll_is_taken_in<K: Hash + Eq + Clone, S, P: Picker<S, Key = K>, E>(
    key: K,
    service: S,
    error: E,
    ready: Option<Readiness<E>>,
)
    ensures
        forall|lb: &mut ClusterLoadBalancer<K, S, P>| #[trigger]
            call_ensures(
                ClusterLoadBalancer::<K, S, P>::on_discovered::<E>,
                (lb, Polled::Update(Ok(EndpointUpdate::Insert(key, service)))),
                ready,
            ) ==> {
                &&& ready is None
                &&& (*final(lb)).services() == (*lb).services().insert(key, service)
                &&& (*final(lb)).picker().notified() == (*lb).picker().notified().push(
                    EndpointChange::Insert(key),
                )
                &&& (*final(lb)).picker().known() == (*lb).picker().known().insert(key)
            },
        forall|lb: &mut ClusterLoadBalancer<K, S, P>| #[trigger]
            call_ensures(
                ClusterLoadBalancer::<K, S, P>::on_discovered::<E>,
                (lb, Polled::Update(Ok(EndpointUpdate::Remove(key)))),
                ready,
            ) ==> {
                &&& ready is None
                &&& (*final(lb)).services() == (*lb).services().remove(key)
                &&& (*final(lb)).picker().notified() == (*lb).picker().notified().push(
                    EndpointChange::Remove(key),
                )
                &&& (*final(lb)).picker().known() == (*lb).picker().known().remove(key)
            },
        forall|lb: &mut ClusterLoadBalancer<K, S, P>| #[trigger]
            call_ensures(
                ClusterLoadBalancer::<K, S, P>::on_discovered::<E>,
                (lb, Polled::Update(Err(error))),
                ready,
            ) ==> ready == Some(Readiness::Failed(error)) && *final(lb) == *lb,
        forall|lb: &mut ClusterLoadBalancer<K, S, P>| #[trigger]
            call_ensures(
                ClusterLoadBalancer::<K, S, P>::on_discovered::<E>,
                (lb, Polled::Pending),
                ready,
            ) ==> {
                &&& *final(lb) == *lb
                &&& (*lb).services().contains_key(key) ==> ready == Some(Readiness::<E>::Ready)
                &&& (*lb).services() == Map::<K, S>::empty() ==> ready == Some(
                    Readiness::<E>::Pending,
                )
                &&& ready == Some(Readiness::<E>::Ready) || ready == Some(Readiness::<E>::Pending)
            },
        forall|lb: &mut ClusterLoadBalancer<K, S, P>| #[trigger]
            call_ensures(
                ClusterLoadBalancer::<K, S, P>::on_discovered::<E>,
                (lb, Polled::Exhausted),
                ready,
            ) ==> {
                &&& *final(lb) == *lb
                &&& (*lb).services().contains_key(key) ==> ready == Some(Readiness::<E>::Ready)
                &&& (*lb).services() == Map::<K, S>::empty() ==> ready == Some(
                    Readiness::<E>::Pending,
                )
                &&& ready == Some(Readiness::<E>::Ready) || ready == Some(Readiness::<E>::Pending)
            },
{
}

/// Whatever discovery yields, an endpoint has the service that the last change about it inserts, none
/// where that change removes it, and what it had where no change is about it. The balancer is ready
/// where it has an endpoint, unless discovery failed.
pub proof fn the_last_change_decides<K: Hash + Eq + Clone, S, P: Picker<S, Key = K>, E>(
    changes: Vec<EndpointUpdate<K, S>>,
    failure: Option<E>,
    ready: Readiness<E>,
    key: K,
    i: int,
)
    requires
        -1 <= i < changes@.len(),
        i >= 0 ==> match changes@[i] {
            EndpointUpdate::Insert(k, _) => k == key,
            EndpointUpdate::Remove(k) => k == key,
        },
        forall|j: int|
            i < j < changes@.len() ==> match #[trigger] changes@[j] {
                EndpointUpdate::Insert(k, _) => k != key,
                EndpointUpdate::Remove(k) => k != key,
            },
    ensures
        forall|lb: &mut ClusterLoadBalancer<K, S, P>| #[trigger]
            call_ensures(
                ClusterLoadBalancer::<K, S, P>::poll_ready::<E>,
                (lb, changes, failure),
                ready,
            ) ==> {
                let (before, after) = ((*lb).services(), (*final(lb)).services());
                &&& i < 0 ==> after.contains_key(key) == before.contains_key(key) && (
                after.contains_key(key) ==> after[key] == before[key])
                &&& i >= 0 ==> match changes@[i] {
                    EndpointUpdate::Insert(_, service) => after.contains_key(key) && after[key]
                        == service,
                    EndpointUpdate::Remove(_) => !after.contains_key(key),
                }
                &&& failure matches Some(e) ==> ready == Readiness::Failed(e)
                &&& failure is None && after.contains_key(key) ==> ready == Readiness::<E>::Ready
                &&& failure is None && after == Map::<K, S>::empty() ==> ready == Readiness::<
                    E,
                >::Pending
                &&& failure is None ==> ready is Ready || ready is Pending
            },
{
    assert forall|lb: &mut ClusterLoadBalancer<K, S, P>| #[trigger]
        call_ensures(
            ClusterLoadBalancer::<K, S, P>::poll_ready::<E>,
            (lb, changes, failure),
            ready,
        ) implies {
        let (before, after) = ((*lb).services(), (*final(lb)).services());
        &&& i < 0 ==> after.contains_key(key) == before.contains_key(key) && (after.contains_key(
            key,
        ) ==> after[key] == before[key])
        &&& i >= 0 ==> match changes@[i] {
            EndpointUpdate::Insert(_, service) => after.contains_key(key) && after[key] == service,
            EndpointUpdate::Remove(_) => !after.contains_key(key),
        }
        &&& failure matches Some(e) ==> ready == Readiness::Failed(e)
        &&& failure is None && after.contains_key(key) ==> ready == Readiness::<E>::Ready
        &&& failure is None && after == Map::<K, S>::empty() ==> ready == Readiness::<E>::Pending
        &&& failure is None ==> ready is Ready || ready is Pending
    } by {
        the_last_update_decides((*lb).services(), changes@, key, i);
    }
}

/// A balancer starts without endpoints, and counts those that it has.
pub proof fn a_balancer_counts_its_endpoints<K: Hash + Eq + Clone, S, P: Picker<S, Key = K>>(
    picker: P,
    fresh: ClusterLoadBalancer<K, S, P>,
    lb: ClusterLoadBalancer<K, S, P>,
    len: usize,
    empty: bool,
)
    requires
        lb.services().dom().finite(),
        call_ensures(ClusterLoadBalancer::<K, S, P>::new, (picker,), fresh),
        call_ensures(ClusterLoadBalancer::<K, S, P>::len, (&lb,), len),
        call_ensures(ClusterLoadBalancer::<K, S, P>::is_empty, (&lb,), empty),
    ensures
        fresh.services() == Map::<K, S>::empty(),
        fresh.picker() == picker,
        len == lb.services().dom().len(),
        empty <==> len == 0,
{
    if len == 0 {
        assert(lb.services().dom() =~= Set::<K>::empty());
        assert(lb.services() =~= Map::<K, S>::empty());
    }
}

/// The texts of the errors.
pub proof fn call_errors_have_their_texts(error: ClusterCallError, message: &'static str)
    requires
        call_ensures(ClusterCallError::message, (&error,), message),
    ensures
        error == ClusterCallError::NoEndpoints ==> message@ == "no endpoints available"@,
        error == ClusterCallError::EndpointNotFound ==> message@ == "endpoint not found"@,
{
}

/// What a call comes to, where the picker knows exactly the endpoints that have a service. It goes to the
/// service of one of them, and to none exactly where there is none. Where there are two or more, it does
/// not go to the one whose load is higher than that of every other.
pub proof fn a_call_avoids_the_most_loaded_endpoint<
    K: Hash + Eq + Clone,
    S: Load<Metric = u64>,
>(
    services: Map<K, S>,
    loads: spec_fn(S) -> u64,
    picked: Result<&S, ClusterCallError>,
    high: K,
    other: K,
)
    requires
        forall|s: S, l: u64| #[trigger] call_ensures(S::load, (&s,), l) ==> l == loads(s),
        high != other,
    ensures
        forall|lb: &mut ClusterLoadBalancer<K, S, P2cPicker<K>>|
            (*lb).inv() && (*lb).services() == services && (*lb).picker().keys().to_set()
                == services.dom() && #[trigger] call_ensures(
                ClusterLoadBalancer::<K, S, P2cPicker<K>>::call,
                (lb,),
                picked,
            ) ==> {
                &&& (*final(lb)).services() == services
                &&& services == Map::<K, S>::empty() ==> picked == Err::<&S, ClusterCallError>(
                    ClusterCallError::NoEndpoints,
                )
                &&& services.contains_key(high) ==> picked is Ok && exists|k: K| #[trigger]
                    services.contains_key(k) && services[k] == *picked->Ok_0
                &&& services.contains_key(high) && services.contains_key(other) && (forall|k: K|
                    #[trigger] services.contains_key(k) && k != high ==> loads(services[k])
                        < loads(services[high])) ==> exists|k: K| #[trigger]
                    services.contains_key(k) && k != high && services[k] == *picked->Ok_0
            },
{
    assert forall|lb: &mut ClusterLoadBalancer<K, S, P2cPicker<K>>|
        (*lb).inv() && (*lb).services() == services && (*lb).picker().keys().to_set()
            == services.dom() && #[trigger] call_ensures(
            ClusterLoadBalancer::<K, S, P2cPicker<K>>::call,
            (lb,),
            picked,
        ) implies {
        &&& (*final(lb)).services() == services
        &&& services == Map::<K, S>::empty() ==> picked == Err::<&S, ClusterCallError>(
            ClusterCallError::NoEndpoints,
        )
        &&& services.contains_key(high) ==> picked is Ok && exists|k: K| #[trigger]
            services.contains_key(k) && services[k] == *picked->Ok_0
        &&& services.contains_key(high) && services.contains_key(other) && (forall|k: K|
            #[trigger] services.contains_key(k) && k != high ==> loads(services[k]) < loads(
                services[high],
            )) ==> exists|k: K| #[trigger]
            services.contains_key(k) && k != high && services[k] == *picked->Ok_0
    } by {
        let keys = (*lb).picker().keys();
        let none = Set::<K>::empty();
        assert(Picker::<S>::known(&(*lb).picker()) == services.dom());
        assert((*lb).in_step());
        assert(keys.no_duplicates());
        if services.contains_key(high) {
            assert(services.dom().contains(high));
            assert(picked is Ok);
            let k = choose|k: K| #[trigger]
                Picker::<S>::allows(&(*lb).picker(), services, none, Some(k))
                    && services.contains_key(k) && services[k] == *picked->Ok_0;
            assert(p2c_picked(services, available(keys, none), Some(k)));
            the_ejected_alone_are_left_out(keys, none, high);
            the_ejected_alone_are_left_out(keys, none, other);
            assert forall|x: K| available(keys, none).contains(x) <==> #[trigger]
                services.contains_key(x) by {
                the_ejected_alone_are_left_out(keys, none, x);
                assert(keys.to_set().contains(x) <==> services.dom().contains(x));
            }
            lemma_pick_of_several(
                services,
                available(keys, none),
                loads,
                Some(k),
                high,
                other,
            );
        }
    }
}

}
