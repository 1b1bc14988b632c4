//! Selecting an endpoint of a cluster.

use crate::endpoint::Load;
use crate::ext::random::rng_from_os;
use crate::key::{clone_key, lawful_key, same_key};
use crate::metric::{always_lower, at_most, integers_compare_by_value};
use crate::sampling::{draw_two, drew_two, two_drawn};
use crate::sequences::{lemma_filter, lemma_filter_next, lemma_push_contains};
use rand::rngs::SmallRng;
use std::collections::{HashMap, HashSet};
use std::hash::Hash;
use vstd::prelude::*;

verus! {

/// Represents a change in the set of available endpoints.
#[derive(Debug, Clone, PartialEq, Eq)]
pub enum EndpointChange<K> {
    /// A new endpoint was added.
    Insert(K),
    /// An endpoint was removed.
    Remove(K),
    /// An endpoint was ejected due to outlier detection.
    Eject(K),
    /// An endpoint was restored after ejection period expired.
    Uneject(K),
}

/// The endpoints that are left after a change. Ejections do not touch the set: whoever picks is
/// told of them separately.
pub open spec fn endpoints_after<K>(keys: Set<K>, change: EndpointChange<K>) -> Set<K> {
    match change {
        EndpointChange::Insert(k) => keys.insert(k),
        EndpointChange::Remove(k) => keys.remove(k),
        EndpointChange::Eject(_) | EndpointChange::Uneject(_) => keys,
    }
}

/// A trait for selecting endpoints from a set of available services.
///
/// The picker maintains its own view of available endpoint keys and can
/// access the services map to read load metrics when making selections.
pub trait Picker<S> {
    /// The key type used to identify endpoints.
    type Key;

    /// What every operation relies on and keeps.
    spec fn inv(&self) -> bool;

    /// The endpoints that the picker knows.
    spec fn known(&self) -> Set<Self::Key>;

    /// The changes that the picker has been told of, in order.
    spec fn notified(&self) -> Seq<EndpointChange<Self::Key>>;

    /// Whether the picker's way of picking allows the choice.
    spec fn allows(
        &self,
        services: Map<Self::Key, S>,
        ejected: Set<Self::Key>,
        picked: Option<Self::Key>,
    ) -> bool;

    /// Update the picker's view of available endpoints.
    fn update(&mut self, change: EndpointChange<Self::Key>)
        requires
            old(self).inv(),
        ensures
            final(self).inv(),
            final(self).known() == endpoints_after(old(self).known(), change),
            final(self).notified() == old(self).notified().push(change),
    ;

    /// Pick an endpoint from the available set.
    ///
    /// The `ejected` set contains endpoints that should be skipped due to
    /// outlier detection.
    ///
    /// Returns `None` if no non-ejected endpoints are available, and may do so where one of them
    /// has no service.
    fn pick(&mut self, services: &HashMap<Self::Key, S>, ejected: &HashSet<Self::Key>) -> (picked:
        Option<Self::Key>)
        requires
            old(self).inv(),
        ensures
            final(self).inv(),
            final(self).known() == old(self).known(),
            final(self).notified() == old(self).notified(),
            old(self).allows(services@, ejected@, picked),
            picked matches Some(k) ==> old(self).known().contains(k) && !ejected@.contains(k),
            old(self).known().subset_of(ejected@) ==> picked is None,
            picked is None ==> old(self).known().subset_of(ejected@) || !(old(self).known()
                - ejected@).subset_of(services@.dom()),
    ;
}

/// Power of Two Choices (P2C) picker.
///
/// This picker implements the P2C algorithm: randomly select two endpoints
/// and pick the one with the lower load. This provides near-optimal load
/// balancing with O(1) selection time.
#[verifier::reject_recursive_types(K)]
pub struct P2cPicker<K> {
    keys: Vec<K>,
    rng: SmallRng,
    notified: Ghost<Seq<EndpointChange<K>>>,
}

/// The keys after a change: a new one comes last, a removed one leaves the others in order.
pub open spec fn keys_after<K>(keys: Seq<K>, change: EndpointChange<K>) -> Seq<K> {
    match change {
        EndpointChange::Insert(k) => if keys.contains(k) {
            keys
        } else {
            keys.push(k)
        },
        EndpointChange::Remove(k) => keys.filter(|x: K| x != k),
        EndpointChange::Eject(_) | EndpointChange::Uneject(_) => keys,
    }
}

/// The keys that are not ejected, in order.
pub open spec fn available<K>(keys: Seq<K>, ejected: Set<K>) -> Seq<K> {
    keys.filter(|k: K| !ejected.contains(k))
}

/// Whether the key is preferred of the two, by their loads: that of the lower load, the first where
/// the loads are equal; one that has a load over one that has none.
pub open spec fn preferred<K, M: PartialOrd>(
    k1: K,
    load1: Option<M>,
    k2: K,
    load2: Option<M>,
    picked: Option<K>,
) -> bool {
    match (load1, load2) {
        (Some(l1), Some(l2)) => exists|first: bool| #[trigger]
            at_most(l1, l2, first) && picked == (if first {
                Some(k1)
            } else {
                Some(k2)
            }),
        (Some(_), None) => picked == Some(k1),
        (None, Some(_)) => picked == Some(k2),
        (None, None) => picked is None,
    }
}

/// Whether `load` is a reading of the load of the endpoint's service, or `None` for want of one.
pub open spec fn load_reading<K, S: Load>(
    services: Map<K, S>,
    key: K,
    load: Option<S::Metric>,
) -> bool {
    match load {
        Some(l) => services.contains_key(key) && call_ensures(S::load, (&services[key],), l),
        None => !services.contains_key(key),
    }
}

/// Whether `picked` is what is preferred of the two endpoints, by readings of their loads.
pub open spec fn picked_of_two<K, S: Load>(
    services: Map<K, S>,
    k1: K,
    k2: K,
    picked: Option<K>,
) -> bool where S::Metric: PartialOrd {
    exists|load1: Option<S::Metric>, load2: Option<S::Metric>|
        #![trigger load_reading(services, k1, load1), load_reading(services, k2, load2)]
        load_reading(services, k1, load1) && load_reading(services, k2, load2) && preferred(
            k1,
            load1,
            k2,
            load2,
            picked,
        )
}

/// Whether `picked` is a choice that two random endpoints allow: none where there is no endpoint, the
/// only one where there is one, else what is preferred of two that were drawn from all.
pub open spec fn p2c_picked<K, S: Load>(
    services: Map<K, S>,
    keys: Seq<K>,
    picked: Option<K>,
) -> bool where S::Metric: PartialOrd {
    if keys.len() == 0 {
        picked is None
    } else if keys.len() == 1 {
        picked == Some(keys[0])
    } else {
        exists|i: usize, j: usize|
            i < keys.len() && j < keys.len() && i != j && two_drawn(keys.len() as usize, i, j)
                && #[trigger] picked_of_two(services, keys[i as int], keys[j as int], picked)
    }
}

/// Picks one of two keys by their loads.
pub fn prefer_lower_load<K: Hash + Eq + Clone, M: PartialOrd>(
    k1: &K,
    load1: Option<M>,
    k2: &K,
    load2: Option<M>,
) -> (picked: Option<K>)
    requires
        lawful_key::<K>(),
    ensures
        preferred(*k1, load1, *k2, load2, picked),
{
    match (load1, load2) {
        (Some(l1), Some(l2)) => {
            let first = l1 <= l2;
            assert(at_most(l1, l2, first));
            if first {
                Some(clone_key(k1))
            } else {
                Some(clone_key(k2))
            }
        },
        (Some(_), None) => Some(clone_key(k1)),
        (None, Some(_)) => Some(clone_key(k2)),
        (None, None) => None,
    }
}

/// Reads the load of the endpoint's service.
fn read_load<K: Hash + Eq + Clone, S: Load>(services: &HashMap<K, S>, key: &K) -> (load: Option<
    S::Metric,
>)
    requires
        lawful_key::<K>(),
    ensures
        load_reading(services@, *key, load),
{
    broadcast use vstd::std_specs::hash::group_hash_axioms;

    match services.get(key) {
        Some(service) => Some(service.load()),
        None => None,
    }
}

impl<K: Hash + Eq + Clone> P2cPicker<K> {
    /// The keys of the endpoints that the picker knows.
    pub closed spec fn keys(&self) -> Seq<K> {
        self.keys@
    }

    /// The generator that endpoints are drawn by.
    pub closed spec fn generator(&self) -> SmallRng {
        self.rng
    }

    /// The changes that the picker has been told of, in order.
    pub closed spec fn told(&self) -> Seq<EndpointChange<K>> {
        self.notified@
    }

    /// Whether the generator was seeded by the operating system.
    pub closed spec fn is_seeded_by_the_system(&self) -> bool {
        call_ensures(rng_from_os, (), self.rng)
    }

    /// Creates a new P2C picker.
    pub fn new() -> (picker: Self)
        ensures
            picker.is_seeded_by_the_system(),
            picker.keys() == Seq::<K>::empty(),
            picker.keys().to_set() == Set::<K>::empty(),
            picker.told() == Seq::<EndpointChange<K>>::empty(),
    {
        let picker = P2cPicker {
            keys: Vec::new(),
            rng: rng_from_os(),
            notified: Ghost(Seq::empty()),
        };
        assert(picker.keys().to_set() =~= Set::<K>::empty());
        picker
    }

    /// Whether the picker knows the endpoint.
    fn knows(&self, key: &K) -> (known: bool)
        requires
            lawful_key::<K>(),
        ensures
            known == self.keys().contains(*key),
    {
        let mut i: usize = 0;
        while i < self.keys.len()
            invariant
                lawful_key::<K>(),
                i <= self.keys@.len(),
                forall|j: int| 0 <= j < i ==> self.keys@[j] != *key,
            decreases self.keys@.len() - i,
        {
            if same_key(&self.keys[i], key) {
                assert(self.keys@[i as int] == *key);
                return true;
            }
            i = i + 1;
        }
        false
    }

    /// Forgets the endpoint.
    fn forget(&mut self, key: &K)
        requires
            lawful_key::<K>(),
        ensures
            final(self).keys() == old(self).keys().filter(|x: K| x != *key),
            final(self).generator() == old(self).generator(),
            final(self).told() == old(self).told(),
    {
        let ghost keys = self.keys@;
        let ghost keep = |x: K| x != *key;
        let ghost mut seen: int = 0;
        let mut i: usize = 0;
        assert(keys.take(0).filter(keep) =~= Seq::<K>::empty()) by {
            reveal(Seq::filter);
        }
        assert(self.keys@ =~= keys.take(0).filter(keep) + keys.skip(0));
        while i < self.keys.len()
            invariant
                lawful_key::<K>(),
                keep == |x: K| x != *key,
                0 <= seen <= keys.len(),
                i == keys.take(seen).filter(keep).len(),
                self.keys@ == keys.take(seen).filter(keep) + keys.skip(seen),
                self.generator() == old(self).generator(),
                self.told() == old(self).told(),
            decreases keys.len() - seen,
        {
            proof {
                assert(self.keys@[i as int] == keys[seen]);
                lemma_filter_next(keys, seen, keep);
            }
            if same_key(&self.keys[i], key) {
                self.keys.remove(i);
                assert(self.keys@ =~= keys.take(seen + 1).filter(keep) + keys.skip(seen + 1));
            } else {
                i = i + 1;
                assert(self.keys@ =~= keys.take(seen + 1).filter(keep) + keys.skip(seen + 1));
            }
            proof {
                seen = seen + 1;
            }
        }
        assert(keys.take(seen) =~= keys);
        assert(self.keys@ =~= keys.filter(keep));
    }

    /// Copies the keys that are not ejected.
    fn available(&self, ejected: &HashSet<K>) -> (keys: Vec<K>)
        requires
            lawful_key::<K>(),
        ensures
            keys@ == available(self.keys(), ejected@),
    {
        broadcast use vstd::std_specs::hash::group_hash_axioms;

        let ghost keep = |k: K| !ejected@.contains(k);
        let mut keys: Vec<K> = Vec::new();
        let mut i: usize = 0;
        assert(self.keys@.take(0).filter(keep) =~= Seq::<K>::empty()) by {
            reveal(Seq::filter);
        }
        while i < self.keys.len()
            invariant
                lawful_key::<K>(),
                keep == |k: K| !ejected@.contains(k),
                i <= self.keys@.len(),
                keys@ == self.keys@.take(i as int).filter(keep),
            decreases self.keys@.len() - i,
        {
            proof {
                lemma_filter_next(self.keys@, i as int, keep);
            }
            if !ejected.contains(&self.keys[i]) {
                keys.push(clone_key(&self.keys[i]));
            }
            i = i + 1;
        }
        assert(self.keys@.take(i as int) =~= self.keys@);
        keys
    }
}

impl<K: Hash + Eq + Clone> Default for P2cPicker<K> {
    fn default() -> (picker: Self)
        ensures
            picker.is_seeded_by_the_system(),
            picker.keys() == Seq::<K>::empty(),
            picker.keys().to_set() == Set::<K>::empty(),
            picker.told() == Seq::<EndpointChange<K>>::empty(),
    {
        P2cPicker::new()
    }
}

impl<K: Hash + Eq + Clone, S: Load> Picker<S> for P2cPicker<K> where S::Metric: PartialOrd {
    type Key = K;

    open spec fn inv(&self) -> bool {
        lawful_key::<K>() && self.keys().no_duplicates()
    }

    open spec fn known(&self) -> Set<K> {
        self.keys().to_set()
    }

    open spec fn notified(&self) -> Seq<EndpointChange<K>> {
        self.told()
    }

    open spec fn allows(&self, services: Map<K, S>, ejected: Set<K>, picked: Option<K>) -> bool {
        p2c_picked(services, available(self.keys(), ejected), picked)
    }

    fn update(&mut self, change: EndpointChange<K>)
        ensures
            final(self).keys() == keys_after(old(self).keys(), change),
            final(self).generator() == old(self).generator(),
    {
        let ghost before = self.keys@;
        self.notified = Ghost(self.notified@.push(change));
        match change {
            EndpointChange::Insert(k) => {
                if !self.knows(&k) {
                    self.keys.push(k);
                    assert(self.keys@.to_set() =~= before.to_set().insert(k)) by {
                        assert(self.keys@[before.len() as int] == k);
                        assert forall|x: K| before.contains(x) implies self.keys@.contains(x) by {
                            let i = choose|i: int| 0 <= i < before.len() && before[i] == x;
                            assert(self.keys@[i] == x);
                        }
                    }
                } else {
                    assert(self.keys@.to_set() =~= before.to_set().insert(k));
                }
            },
            EndpointChange::Remove(k) => {
                self.forget(&k);
                proof {
                    lemma_filter(before, |x: K| x != k);
                    assert(self.keys@.to_set() =~= before.to_set().remove(k));
                }
            },
            // Eject/Uneject are handled via the ejected set passed to pick()
            // The picker doesn't need to maintain separate state for these
            EndpointChange::Eject(_) | EndpointChange::Uneject(_) => {},
        }
    }

    fn pick(&mut self, services: &HashMap<K, S>, ejected: &HashSet<K>) -> (picked: Option<K>)
        ensures
            final(self).keys() == old(self).keys(),
            ({
                let keys = available(old(self).keys(), ejected@);
                if keys.len() < 2 {
                    final(self).generator() == old(self).generator()
                } else {
                    exists|one: &mut SmallRng, two: &mut SmallRng, i: usize, j: usize|
                        {
                            &&& #[trigger] drew_two(one, two, keys.len() as usize, i, j)
                            &&& *one == old(self).generator()
                            &&& *two == *final(one)
                            &&& *final(two) == final(self).generator()
                            &&& picked_of_two(services@, keys[i as int], keys[j as int], picked)
                        }
                }
            }),
    {
        let keys = self.available(ejected);
        proof {
            lemma_filter(self.keys@, |k: K| !ejected@.contains(k));
            assert forall|i: int| 0 <= i < keys@.len() implies self.keys@.contains(
                #[trigger] keys@[i],
            ) && !ejected@.contains(keys@[i]) by {
                assert(available(self.keys@, ejected@).contains(keys@[i]));
            }
            assert forall|k: K| self.keys@.contains(k) && !ejected@.contains(k) implies 0
                < keys@.len() by {
                assert(available(self.keys@, ejected@).contains(k));
            }
        }
        let len = keys.len();
        if len == 0 {
            return None;
        }
        if len == 1 {
            let only = clone_key(&keys[0]);
            return Some(only);
        }
        // Pick two random indices
        let (idx1, idx2) = draw_two(&mut self.rng, len);
        proof {
            let all = available(old(self).keys(), ejected@);
            let (one, two) = choose|one: &mut SmallRng, two: &mut SmallRng|
                {
                    &&& #[trigger] drew_two(one, two, len, idx1, idx2)
                    &&& *one == old(self).generator()
                    &&& *two == *final(one)
                    &&& *final(two) == self.generator()
                };
            assert(drew_two(one, two, all.len() as usize, idx1, idx2));
        }
        let load1 = read_load(services, &keys[idx1]);
        let load2 = read_load(services, &keys[idx2]);
        let picked = prefer_lower_load(&keys[idx1], load1, &keys[idx2], load2);
        assert(load_reading(services@, keys@[idx1 as int], load1));
        assert(load_reading(services@, keys@[idx2 as int], load2));
        assert(picked_of_two(services@, keys@[idx1 as int], keys@[idx2 as int], picked));
        picked
    }
}

/// An endpoint that is known already is not added again.
pub proof fn known_endpoints_are_kept_once<K>(keys: Seq<K>, key: K)
    ensures
        keys_after(keys_after(keys, EndpointChange::Insert(key)), EndpointChange::Insert(key))
            == keys_after(keys, EndpointChange::Insert(key)),
{
    let once = keys_after(keys, EndpointChange::Insert(key));
    if !keys.contains(key) {
        assert(once[keys.len() as int] == key);
    }
}

/// An endpoint that has been removed, or is ejected, is never picked.
pub proof fn removed_and_ejected_are_never_picked<K, S: Load>(
    keys: Seq<K>,
    removed: K,
    services: Map<K, S>,
    ejected: Set<K>,
    picked: K,
) where S::Metric: PartialOrd
    requires
        p2c_picked(
            services,
            available(keys_after(keys, EndpointChange::Remove(removed)), ejected),
            Some(picked),
        ),
    ensures
        picked != removed,
        !ejected.contains(picked),
        keys.contains(picked),
{
    let left = keys_after(keys, EndpointChange::Remove(removed));
    let choices = available(left, ejected);
    lemma_filter(keys, |x: K| x != removed);
    lemma_filter(left, |k: K| !ejected.contains(k));
    assert(choices.contains(picked)) by {
        if choices.len() >= 2 {
            let (i, j) = choose|i: usize, j: usize|
                i < choices.len() && j < choices.len() && i != j && two_drawn(
                    choices.len() as usize,
                    i,
                    j,
                ) && #[trigger] picked_of_two(
                    services,
                    choices[i as int],
                    choices[j as int],
                    Some(picked),
                );
            assert(picked == choices[i as int] || picked == choices[j as int]);
        }
    }
}

/// Of exactly two endpoints, both with a service, the one whose load always reads lower is picked.
pub proof fn of_two_endpoints_the_less_loaded_is_picked<K, S: Load>(
    keys: Seq<K>,
    services: Map<K, S>,
    low: int,
    high: int,
    picked: Option<K>,
) where S::Metric: PartialOrd
    requires
        keys.len() == 2,
        (low == 0 && high == 1) || (low == 1 && high == 0),
        services.contains_key(keys[low]),
        services.contains_key(keys[high]),
        forall|a: S::Metric, b: S::Metric|
            #![trigger call_ensures(S::load, (&services[keys[low]],), a), call_ensures(
                S::load,
                (&services[keys[high]],),
                b,
            )]
            call_ensures(S::load, (&services[keys[low]],), a) && call_ensures(
                S::load,
                (&services[keys[high]],),
                b,
            ) ==> always_lower(a, b),
        p2c_picked(services, keys, picked),
    ensures
        picked == Some(keys[low]),
{
    let (i, j) = choose|i: usize, j: usize|
        i < keys.len() && j < keys.len() && i != j && two_drawn(keys.len() as usize, i, j)
            && #[trigger] picked_of_two(services, keys[i as int], keys[j as int], picked);
    let k1 = keys[i as int];
    let k2 = keys[j as int];
    assert(picked_of_two(services, k1, k2, picked));
    let (load1, load2) = choose|load1: Option<S::Metric>, load2: Option<S::Metric>|
        #![trigger load_reading(services, k1, load1), load_reading(services, k2, load2)]
        load_reading(services, k1, load1) && load_reading(services, k2, load2) && preferred(
            k1,
            load1,
            k2,
            load2,
            picked,
        );
    assert(load1 is Some && load2 is Some);
    if i == low {
        assert(always_lower(load1->0, load2->0));
    } else {
        assert(always_lower(load2->0, load1->0));
    }
}

/// Of the two loads the lower decides, the first where they are equal. An endpoint that has a load is
/// preferred to one that has none, and where both have none, none is picked.
pub proof fn the_lower_load_is_preferred<K: Hash + Eq + Clone>(
    k1: K,
    load1: Option<u64>,
    k2: K,
    load2: Option<u64>,
    picked: Option<K>,
)
    requires
        lawful_key::<K>(),
        call_ensures(prefer_lower_load::<K, u64>, (&k1, load1, &k2, load2), picked),
    ensures
        load1 is Some && load2 is Some && load1->0 <= load2->0 ==> picked == Some(k1),
        load1 is Some && load2 is Some && load1->0 > load2->0 ==> picked == Some(k2),
        load1 is Some && load2 is None ==> picked == Some(k1),
        load1 is None && load2 is Some ==> picked == Some(k2),
        load1 is None && load2 is None ==> picked is None,
{
    match (load1, load2) {
        (Some(l1), Some(l2)) => {
            integers_compare_by_value(l1, l2);
        },
        _ => {},
    }
}

/// A change adds its endpoint, takes it away, or leaves the endpoints as they are; no endpoint is ever
/// known twice.
pub proof fn a_change_touches_its_endpoint_only<K>(keys: Seq<K>, key: K, other: K)
    requires
        keys.no_duplicates(),
    ensures
        ({
            let inserted = keys_after(keys, EndpointChange::Insert(key));
            let removed = keys_after(keys, EndpointChange::Remove(key));
            &&& inserted.no_duplicates()
            &&& removed.no_duplicates()
            &&& inserted.contains(other) <==> keys.contains(other) || other == key
            &&& removed.contains(other) <==> keys.contains(other) && other != key
            &&& keys_after(keys, EndpointChange::Eject(key)) == keys
            &&& keys_after(keys, EndpointChange::Uneject(key)) == keys
        }),
{
    lemma_push_contains(keys, key);
    lemma_filter(keys, |x: K| x != key);
}

/// The endpoints that a pick chooses from are those that are known and not ejected, each once.
pub proof fn the_ejected_alone_are_left_out<K>(keys: Seq<K>, ejected: Set<K>, key: K)
    requires
        keys.no_duplicates(),
    ensures
        available(keys, ejected).contains(key) <==> keys.contains(key) && !ejected.contains(key),
        available(keys, ejected).no_duplicates(),
{
    lemma_filter(keys, |k: K| !ejected.contains(k));
}

/// Two endpoints or more are picked among by drawing two and taking the one of the lower load: where each
/// service has a load that every reading gives, the first is picked unless the load of the second is
/// lower. One without a service is picked only where it is the only endpoint.
pub proof fn the_less_loaded_of_the_two_drawn_is_picked<K, S: Load<Metric = u64>>(
    services: Map<K, S>,
    keys: Seq<K>,
    loads: spec_fn(S) -> u64,
    picked: Option<K>,
)
    requires
        p2c_picked(services, keys, picked),
        forall|s: S, l: u64| #[trigger] call_ensures(S::load, (&s,), l) ==> l == loads(s),
    ensures
        keys.len() == 0 ==> picked is None,
        keys.len() == 1 ==> picked == Some(keys[0]),
        keys.len() >= 2 ==> exists|i: usize, j: usize| #[trigger]
            two_drawn(keys.len() as usize, i, j) && {
                let (k1, k2) = (keys[i as int], keys[j as int]);
                &&& i < keys.len()
                &&& j < keys.len()
                &&& i != j
                &&& services.contains_key(k1) && services.contains_key(k2) ==> picked == Some(
                    if loads(services[k1]) <= loads(services[k2]) {
                        k1
                    } else {
                        k2
                    },
                )
                &&& services.contains_key(k1) && !services.contains_key(k2) ==> picked == Some(k1)
                &&& !services.contains_key(k1) && services.contains_key(k2) ==> picked == Some(k2)
                &&& !services.contains_key(k1) && !services.contains_key(k2) ==> picked is None
            },
{
    if keys.len() >= 2 {
        let (i, j) = choose|i: usize, j: usize|
            i < keys.len() && j < keys.len() && i != j && two_drawn(keys.len() as usize, i, j)
                && #[trigger] picked_of_two(services, keys[i as int], keys[j as int], picked);
        let k1 = keys[i as int];
        let k2 = keys[j as int];
        assert(picked_of_two(services, k1, k2, picked));
        let (load1, load2) = choose|load1: Option<u64>, load2: Option<u64>|
            #![trigger load_reading(services, k1, load1), load_reading(services, k2, load2)]
            load_reading(services, k1, load1) && load_reading(services, k2, load2) && preferred(
                k1,
                load1,
                k2,
                load2,
                picked,
            );
        if load1 is Some && load2 is Some {
            assert(load1->0 == loads(services[k1]));
            assert(load2->0 == loads(services[k2]));
            integers_compare_by_value(load1->0, load2->0);
        }
    }
}

/// What a pick comes to, of whatever many endpoints. It is known and not ejected. Where there is another
/// such endpoint, it has a service, and where all of them have one, it is not the one whose load is
/// higher than that of every other. Nothing is picked only where there is no such endpoint or where one
/// of several has no service.
pub proof fn a_pick_avoids_the_ejected_and_the_most_loaded<
    K: Hash + Eq + Clone,
    S: Load<Metric = u64>,
>(
    keys: Seq<K>,
    services: HashMap<K, S>,
    ejected: HashSet<K>,
    loads: spec_fn(S) -> u64,
    picked: Option<K>,
    high: K,
    other: K,
)
    requires
        forall|s: S, l: u64| #[trigger] call_ensures(S::load, (&s,), l) ==> l == loads(s),
        high != other,
    ensures
        forall|picker: &mut P2cPicker<K>|
            Picker::<S>::inv(&*picker) && (*picker).keys() == keys && #[trigger] call_ensures(
                <P2cPicker<K> as Picker<S>>::pick,
                (picker, &services, &ejected),
                picked,
            ) ==> {
                let high_is_there = keys.contains(high) && !ejected@.contains(high);
                let other_is_there = keys.contains(other) && !ejected@.contains(other);
                &&& (*final(picker)).keys() == keys
                &&& picked matches Some(chosen) ==> keys.contains(chosen) && !ejected@.contains(
                    chosen,
                )
                &&& high_is_there && other_is_there && picked is Some ==> services@.contains_key(
                    picked->0,
                )
                &&& high_is_there && other_is_there && (forall|k: K| #[trigger]
                    keys.contains(k) && !ejected@.contains(k) ==> services@.contains_key(k) && (k
                        != high ==> loads(services@[k]) < loads(services@[high]))) ==> picked
                    is Some && picked->0 != high
                &&& high_is_there && (forall|k: K| #[trigger]
                    keys.contains(k) && !ejected@.contains(k) ==> k == high) ==> picked == Some(
                    high,
                )
                &&& (forall|k: K| #[trigger] keys.contains(k) ==> ejected@.contains(k)) ==> picked
                    is None
                &&& high_is_there && (forall|k: K| #[trigger]
                    keys.contains(k) && !ejected@.contains(k) ==> services@.contains_key(k))
                    ==> picked is Some
            },
{
    assert forall|picker: &mut P2cPicker<K>|
        Picker::<S>::inv(&*picker) && (*picker).keys() == keys && #[trigger] call_ensures(
            <P2cPicker<K> as Picker<S>>::pick,
            (picker, &services, &ejected),
            picked,
        ) implies {
        let high_is_there = keys.contains(high) && !ejected@.contains(high);
        let other_is_there = keys.contains(other) && !ejected@.contains(other);
        &&& (*final(picker)).keys() == keys
        &&& picked matches Some(chosen) ==> keys.contains(chosen) && !ejected@.contains(
                    chosen,
                )
        &&& high_is_there && other_is_there && picked is Some ==> services@.contains_key(picked->0)
        &&& high_is_there && other_is_there && (forall|k: K| #[trigger]
            keys.contains(k) && !ejected@.contains(k) ==> services@.contains_key(k) && (k != high
                ==> loads(services@[k]) < loads(services@[high]))) ==> picked is Some && picked->0
            != high
        &&& high_is_there && (forall|k: K| #[trigger]
            keys.contains(k) && !ejected@.contains(k) ==> k == high) ==> picked == Some(high)
        &&& (forall|k: K| #[trigger] keys.contains(k) ==> ejected@.contains(k)) ==> picked is None
        &&& high_is_there && (forall|k: K| #[trigger]
            keys.contains(k) && !ejected@.contains(k) ==> services@.contains_key(k)) ==> picked
            is Some
    } by {
        let all = available(keys, ejected@);
        assert(Picker::<S>::allows(&*picker, services@, ejected@, picked));
        assert(p2c_picked(services@, all, picked));
        lemma_filter(keys, |k: K| !ejected@.contains(k));
        lemma_pick_of_several(services@, all, loads, picked, high, other);
        assert forall|i: int| 0 <= i < all.len() implies keys.contains(#[trigger] all[i]) && !ejected@.contains(all[i]) by {
            assert(all.contains(all[i]));
        }
    }
}

/// What a pick comes to, by the endpoints that it chooses from.
pub(crate) proof fn lemma_pick_of_several<K, S: Load<Metric = u64>>(
    services: Map<K, S>,
    all: Seq<K>,
    loads: spec_fn(S) -> u64,
    picked: Option<K>,
    high: K,
    other: K,
)
    requires
        p2c_picked(services, all, picked),
        forall|s: S, l: u64| #[trigger] call_ensures(S::load, (&s,), l) ==> l == loads(s),
        high != other,
        all.no_duplicates(),
    ensures
        picked matches Some(k) ==> all.contains(k),
        all.contains(high) && all.contains(other) ==> all.len() >= 2,
        all.len() >= 2 && picked is Some ==> services.contains_key(picked->0),
        all.len() >= 2 && (forall|k: K| #[trigger]
            all.contains(k) ==> services.contains_key(k) && (k != high ==> loads(services[k])
                < loads(services[high]))) ==> picked is Some && picked->0 != high,
        all.contains(high) && (forall|k: K| #[trigger] all.contains(k) ==> k == high) ==> picked
            == Some(high),
        all.len() == 0 ==> picked is None,
        all.len() > 0 && (forall|k: K| #[trigger] all.contains(k) ==> services.contains_key(k))
            ==> picked is Some,
{
    the_less_loaded_of_the_two_drawn_is_picked(services, all, loads, picked);
    assert(forall|i: int| 0 <= i < all.len() ==> all.contains(#[trigger] all[i]));
    if all.contains(high) && all.contains(other) {
        let i = choose|i: int| 0 <= i < all.len() && all[i] == high;
        let j = choose|j: int| 0 <= j < all.len() && all[j] == other;
        assert(i != j);
    }
    if all.len() >= 2 {
        assert(all[0] != all[1]);
        assert(all.contains(all[0]) && all.contains(all[1]));
        let (i, j) = choose|i: usize, j: usize| #[trigger]
            two_drawn(all.len() as usize, i, j) && {
                let (k1, k2) = (all[i as int], all[j as int]);
                &&& i < all.len()
                &&& j < all.len()
                &&& i != j
                &&& services.contains_key(k1) && services.contains_key(k2) ==> picked == Some(
                    if loads(services[k1]) <= loads(services[k2]) {
                        k1
                    } else {
                        k2
                    },
                )
                &&& services.contains_key(k1) && !services.contains_key(k2) ==> picked == Some(k1)
                &&& !services.contains_key(k1) && services.contains_key(k2) ==> picked == Some(k2)
                &&& !services.contains_key(k1) && !services.contains_key(k2) ==> picked is None
            };
        assert(all[i as int] != all[j as int]);
        assert(all.contains(all[i as int]) && all.contains(all[j as int]));
    }
}

/// A picker knows what it is told of, from none on: an endpoint from when it is inserted to when it is
/// removed. Ejections are nothing to it, and it records what it was told.
pub proof fn a_picker_knows_what_it_is_told<K: Hash + Eq + Clone, S: Load<Metric = u64>>(
    fresh: P2cPicker<K>,
    change: EndpointChange<K>,
    key: K,
)
    ensures
        call_ensures(P2cPicker::<K>::new, (), fresh) ==> !fresh.keys().contains(key)
            && fresh.keys().len() == 0 && fresh.told().len() == 0,
        forall|picker: &mut P2cPicker<K>, none: ()|
            #![trigger call_ensures(<P2cPicker<K> as Picker<S>>::update, (picker, change), none)]
            Picker::<S>::inv(&*picker) && call_ensures(
                <P2cPicker<K> as Picker<S>>::update,
                (picker, change),
                none,
            ) ==> {
                &&& Picker::<S>::inv(&*final(picker))
                &&& (*final(picker)).told() == (*picker).told().push(change)
                &&& (*final(picker)).keys().contains(key) == (match change {
                    EndpointChange::Insert(k) => k == key || (*picker).keys().contains(key),
                    EndpointChange::Remove(k) => k != key && (*picker).keys().contains(key),
                    EndpointChange::Eject(_) => (*picker).keys().contains(key),
                    EndpointChange::Uneject(_) => (*picker).keys().contains(key),
                })
            },
{
    assert forall|picker: &mut P2cPicker<K>, none: ()|
        #![trigger call_ensures(<P2cPicker<K> as Picker<S>>::update, (picker, change), none)]
        Picker::<S>::inv(&*picker) && call_ensures(
            <P2cPicker<K> as Picker<S>>::update,
            (picker, change),
            none,
        ) implies {
        &&& Picker::<S>::inv(&*final(picker))
        &&& (*final(picker)).told() == (*picker).told().push(change)
        &&& (*final(picker)).keys().contains(key) == (match change {
            EndpointChange::Insert(k) => k == key || (*picker).keys().contains(key),
            EndpointChange::Remove(k) => k != key && (*picker).keys().contains(key),
            EndpointChange::Eject(_) => (*picker).keys().contains(key),
            EndpointChange::Uneject(_) => (*picker).keys().contains(key),
        })
    } by {
        let keys = (*picker).keys();
        assert(Picker::<S>::notified(&*final(picker)) == Picker::<S>::notified(&*picker).push(change));
        assert(Picker::<S>::inv(&*final(picker)));
        assert((*final(picker)).keys() == keys_after(keys, change));
        match change {
            EndpointChange::Insert(k) => a_change_touches_its_endpoint_only(keys, k, key),
            EndpointChange::Remove(k) => a_change_touches_its_endpoint_only(keys, k, key),
            _ => {},
        }
    }
}

/// A pick draws from the picker's own generator, and only where there is a choice: of fewer than two
/// endpoints nothing is drawn, and else the generator goes on from where the two draws left it.
pub proof fn a_pick_draws_from_the_generator<K: Hash + Eq + Clone, S: Load<Metric = u64>>(
    services: HashMap<K, S>,
    ejected: HashSet<K>,
    picked: Option<K>,
)
    ensures
        forall|picker: &mut P2cPicker<K>| #[trigger]
            call_ensures(
                <P2cPicker<K> as Picker<S>>::pick,
                (picker, &services, &ejected),
                picked,
            ) ==> {
                let choices = (*picker).keys().filter(|k: K| !ejected@.contains(k));
                &&& choices.len() < 2 ==> (*final(picker)).generator() == (*picker).generator()
                &&& choices.len() >= 2 ==> exists|
                    one: &mut SmallRng,
                    two: &mut SmallRng,
                    i: usize,
                    j: usize,
                | #[trigger]
                    drew_two(one, two, choices.len() as usize, i, j) && {
                        &&& *one == (*picker).generator()
                        &&& *two == *final(one)
                        &&& *final(two) == (*final(picker)).generator()
                        &&& picked matches Some(k) ==> k == choices[i as int] || k
                            == choices[j as int]
                    }
            },
{
    assert forall|picker: &mut P2cPicker<K>| #[trigger]
        call_ensures(
            <P2cPicker<K> as Picker<S>>::pick,
            (picker, &services, &ejected),
            picked,
        ) implies {
        let choices = (*picker).keys().filter(|k: K| !ejected@.contains(k));
        &&& choices.len() < 2 ==> (*final(picker)).generator() == (*picker).generator()
        &&& choices.len() >= 2 ==> exists|
            one: &mut SmallRng,
            two: &mut SmallRng,
            i: usize,
            j: usize,
        | #[trigger]
            drew_two(one, two, choices.len() as usize, i, j) && {
                &&& *one == (*picker).generator()
                &&& *two == *final(one)
                &&& *final(two) == (*final(picker)).generator()
                &&& picked matches Some(k) ==> k == choices[i as int] || k == choices[j as int]
            }
    } by {
        let choices = available((*picker).keys(), ejected@);
        if choices.len() >= 2 {
            let (one, two, i, j) = choose|
                one: &mut SmallRng,
                two: &mut SmallRng,
                i: usize,
                j: usize,
            |
                {
                    &&& #[trigger] drew_two(one, two, choices.len() as usize, i, j)
                    &&& *one == (*picker).generator()
                    &&& *two == *final(one)
                    &&& *final(two) == (*final(picker)).generator()
                    &&& picked_of_two(services@, choices[i as int], choices[j as int], picked)
                };
            assert(drew_two(one, two, choices.len() as usize, i, j));
        }
    }
}

}
