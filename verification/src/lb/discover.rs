//! Endpoint discovery primitives for load balancing:
//! - [`EndpointUpdate`]: Represents an insert or remove operation for an endpoint
//! - [`EndpointUpdateCache`]: Batches updates from a discover and provides atomic consume

use crate::ext::maps::{batch_updates, slot_updates, UpdateSlot};
use dashmap::DashMap;
use std::sync::Arc;
use vstd::prelude::*;

verus! {

/// Represents an update to the set of available endpoints.
#[derive(Debug, Clone, PartialEq, Eq)]
pub enum EndpointUpdate<K, S> {
    /// Insert or update an endpoint with the given key and service.
    Insert(K, S),
    /// Remove the endpoint with the given key.
    Remove(K),
}

impl<K, S> EndpointUpdate<K, S> {
    /// The key that the update is about.
    pub open spec fn spec_key(self) -> K {
        match self {
            EndpointUpdate::Insert(k, _) => k,
            EndpointUpdate::Remove(k) => k,
        }
    }

    /// What the update leaves under its key: a service, or nothing.
    pub open spec fn spec_service(self) -> Option<S> {
        match self {
            EndpointUpdate::Insert(_, s) => Some(s),
            EndpointUpdate::Remove(_) => None,
        }
    }

    /// Returns the key associated with this update.
    pub fn key(&self) -> (key: &K)
        ensures
            *key == self.spec_key(),
    {
        match self {
            EndpointUpdate::Insert(k, _) => k,
            EndpointUpdate::Remove(k) => k,
        }
    }

    /// Returns `true` if this is an insert update.
    pub fn is_insert(&self) -> (insert: bool)
        ensures
            insert == (*self is Insert),
    {
        matches!(self, EndpointUpdate::Insert(_, _))
    }

    /// Returns `true` if this is a remove update.
    pub fn is_remove(&self) -> (remove: bool)
        ensures
            remove == (*self is Remove),
    {
        matches!(self, EndpointUpdate::Remove(_))
    }
}

/// What a poll of discovery has yielded.
#[derive(Debug, PartialEq, Eq)]
pub enum Polled<K, S, E> {
    /// An update, or an error in its place.
    Update(Result<EndpointUpdate<K, S>, E>),
    /// The discovery source is exhausted.
    Exhausted,
    /// No update is currently available.
    Pending,
}

/// The services after one update.
pub open spec fn services_after<K, S>(
    services: Map<K, S>,
    update: EndpointUpdate<K, S>,
) -> Map<K, S> {
    match update {
        EndpointUpdate::Insert(k, s) => services.insert(k, s),
        EndpointUpdate::Remove(k) => services.remove(k),
    }
}

/// The services after a sequence of updates.
pub open spec fn services_after_all<K, S>(
    services: Map<K, S>,
    updates: Seq<EndpointUpdate<K, S>>,
) -> Map<K, S>
    decreases updates.len(),
{
    if updates.len() == 0 {
        services
    } else {
        services_after(services_after_all(services, updates.drop_last()), updates.last())
    }
}

/// The place of the last update about the key, if there is one.
pub open spec fn last_update<K, S>(updates: Seq<EndpointUpdate<K, S>>, key: K) -> Option<int>
    decreases updates.len(),
{
    if updates.len() == 0 {
        None
    } else if updates.last().spec_key() == key {
        Some(updates.len() - 1)
    } else {
        last_update(updates.drop_last(), key)
    }
}

/// Of several updates about one endpoint the last wins; an endpoint that no update is about keeps
/// what it had.
pub proof fn the_last_update_wins<K, S>(
    services: Map<K, S>,
    updates: Seq<EndpointUpdate<K, S>>,
    key: K,
)
    ensures
        ({
            let after = services_after_all(services, updates);
            match last_update(updates, key) {
                Some(i) => {
                    &&& 0 <= i < updates.len()
                    &&& updates[i].spec_key() == key
                    &&& forall|j: int| i < j < updates.len() ==> (#[trigger] updates[j]).spec_key()
                        != key
                    &&& match updates[i].spec_service() {
                        Some(s) => after.contains_key(key) && after[key] == s,
                        None => !after.contains_key(key),
                    }
                },
                None => {
                    &&& forall|j: int| 0 <= j < updates.len() ==> (#[trigger] updates[j]).spec_key()
                        != key
                    &&& after.contains_key(key) == services.contains_key(key)
                    &&& after.contains_key(key) ==> after[key] == services[key]
                },
            }
        }),
    decreases updates.len(),
{
    if updates.len() > 0 {
        let rest = updates.drop_last();
        the_last_update_wins(services, rest, key);
        assert(forall|j: int| 0 <= j < rest.len() ==> #[trigger] rest[j] == updates[j]);
        assert forall|j: int|
            0 <= j < rest.len() implies (#[trigger] updates[j]).spec_key()
            == rest[j].spec_key() by {}
    }
}

/// The batch after one more update: what the update leaves under its key replaces what was there.
pub open spec fn batch_after<K, S>(
    batch: Map<K, Option<S>>,
    update: EndpointUpdate<K, S>,
) -> Map<K, Option<S>> {
    batch.insert(update.spec_key(), update.spec_service())
}

/// The batch after a sequence of updates.
pub open spec fn batch_after_all<K, S>(
    batch: Map<K, Option<S>>,
    updates: Seq<EndpointUpdate<K, S>>,
) -> Map<K, Option<S>>
    decreases updates.len(),
{
    if updates.len() == 0 {
        batch
    } else {
        batch_after(batch_after_all(batch, updates.drop_last()), updates.last())
    }
}

/// The services once a batch has been applied.
pub open spec fn apply_batch<K, S>(services: Map<K, S>, batch: Map<K, Option<S>>) -> Map<K, S> {
    Map::new(
        |k: K| if batch.contains_key(k) {
            batch[k] is Some
        } else {
            services.contains_key(k)
        },
        |k: K| if batch.contains_key(k) {
            batch[k]->0
        } else {
            services[k]
        },
    )
}

/// Batching loses nothing: to apply the batch of a sequence of updates is to apply the updates one
/// after the other.
pub proof fn a_batch_stands_for_its_updates<K, S>(
    services: Map<K, S>,
    updates: Seq<EndpointUpdate<K, S>>,
)
    ensures
        apply_batch(services, batch_after_all(Map::empty(), updates)) == services_after_all(
            services,
            updates,
        ),
    decreases updates.len(),
{
    let batch = batch_after_all(Map::<K, Option<S>>::empty(), updates);
    if updates.len() > 0 {
        let rest = updates.drop_last();
        a_batch_stands_for_its_updates(services, rest);
    }
    assert(apply_batch(services, batch) =~= services_after_all(services, updates));
}

/// The update, with its key as a mathematical value.
pub open spec fn update_view(update: EndpointUpdate<String, u64>) -> EndpointUpdate<
    Seq<char>,
    u64,
> {
    match update {
        EndpointUpdate::Insert(k, s) => EndpointUpdate::Insert(k@, s),
        EndpointUpdate::Remove(k) => EndpointUpdate::Remove(k@),
    }
}

/// The updates, with their keys as mathematical values.
pub open spec fn update_views(updates: Seq<EndpointUpdate<String, u64>>) -> Seq<
    EndpointUpdate<Seq<char>, u64>,
> {
    updates.map_values(|u: EndpointUpdate<String, u64>| update_view(u))
}

/// A cache that batches endpoint updates, each the key of an endpoint and the handle of its
/// service.
///
/// Whoever polls discovery hands each update to the cache as it comes. The
/// [`consume`](Self::consume) operation retrieves all pending updates at once.
///
/// - Updates are stored as `Option`: `Some(service)` for inserts, `None` for removes
/// - Same key can be inserted then removed; the later update overwrites the earlier
/// - `consume()` swaps out the current batch in one step
pub struct EndpointUpdateCache {
    updates: UpdateSlot,
}

impl EndpointUpdateCache {
    /// The pending updates: for each endpoint a service, or nothing where it is to be removed.
    pub closed spec fn pending(&self) -> Map<Seq<char>, Option<u64>> {
        slot_updates(self.updates)
    }

    /// Creates a cache without pending updates.
    pub fn new() -> (cache: Self)
        ensures
            cache.pending() == Map::<Seq<char>, Option<u64>>::empty(),
    {
        EndpointUpdateCache { updates: UpdateSlot::new() }
    }

    /// Takes in what a poll of discovery has yielded: an update, an error, which is passed over, or
    /// nothing where the discovery source is exhausted. Returns whether to poll on.
    pub fn on_discovered<E>(
        &mut self,
        polled: Option<Result<EndpointUpdate<String, u64>, E>>,
    ) -> (go_on: bool)
        ensures
            go_on == (polled is Some),
            final(self).pending() == (match polled {
                Some(Ok(update)) => batch_after(old(self).pending(), update_view(update)),
                _ => old(self).pending(),
            }),
    {
        match polled {
            Some(Ok(EndpointUpdate::Insert(key, service))) => {
                self.updates.insert(key, Some(service));
                true
            },
            Some(Ok(EndpointUpdate::Remove(key))) => {
                self.updates.insert(key, None);
                true
            },
            Some(Err(_)) => true,
            // Discovery exhausted
            None => false,
        }
    }

    /// Atomically consumes all cached updates, returning them to the caller.
    ///
    /// This swaps the internal cache with an empty [`DashMap`] and returns the
    /// previous contents. The returned map contains:
    /// - `Some(service)` for endpoints that should be inserted/updated
    /// - `None` for endpoints that should be removed
    pub fn consume(&mut self) -> (batch: Arc<DashMap<String, Option<u64>>>)
        ensures
            batch_updates(*batch) == old(self).pending(),
            final(self).pending() == Map::<Seq<char>, Option<u64>>::empty(),
    {
        self.updates.take()
    }

    /// Returns the number of pending updates in the cache.
    pub fn len(&self) -> (len: usize)
        ensures
            len == self.pending().dom().len(),
    {
        self.updates.len()
    }

    /// Returns `true` if there are no pending updates.
    pub fn is_empty(&self) -> (empty: bool)
        ensures
            empty == (self.pending() == Map::<Seq<char>, Option<u64>>::empty()),
    {
        self.updates.is_empty()
    }
}

/// An update is an insert or a removal, and knows the endpoint that it is about.
pub proof fn an_update_knows_what_it_is<K, S>(
    key: K,
    service: S,
    of_insert: &K,
    of_removal: &K,
    inserts: (bool, bool),
    removes: (bool, bool),
)
    requires
        call_ensures(
            EndpointUpdate::<K, S>::key,
            (&EndpointUpdate::Insert(key, service),),
            of_insert,
        ),
        call_ensures(EndpointUpdate::<K, S>::key, (&EndpointUpdate::Remove(key),), of_removal),
        call_ensures(
            EndpointUpdate::<K, S>::is_insert,
            (&EndpointUpdate::Insert(key, service),),
            inserts.0,
        ),
        call_ensures(
            EndpointUpdate::<K, S>::is_insert,
            (&EndpointUpdate::Remove(key),),
            inserts.1,
        ),
        call_ensures(
            EndpointUpdate::<K, S>::is_remove,
            (&EndpointUpdate::Insert(key, service),),
            removes.0,
        ),
        call_ensures(
            EndpointUpdate::<K, S>::is_remove,
            (&EndpointUpdate::Remove(key),),
            removes.1,
        ),
    ensures
        *of_insert == key,
        *of_removal == key,
        inserts == (true, false),
        removes == (false, true),
{
}

/// An endpoint has the service that the last update about it inserts, and none where that update removes
/// it; it keeps what it had where no update is about it.
pub proof fn the_last_update_decides<K, S>(
    services: Map<K, S>,
    updates: Seq<EndpointUpdate<K, S>>,
    key: K,
    i: int,
)
    requires
        -1 <= i < updates.len(),
        i >= 0 ==> match updates[i] {
            EndpointUpdate::Insert(k, _) => k == key,
            EndpointUpdate::Remove(k) => k == key,
        },
        forall|j: int|
            i < j < updates.len() ==> match #[trigger] updates[j] {
                EndpointUpdate::Insert(k, _) => k != key,
                EndpointUpdate::Remove(k) => k != key,
            },
    ensures
        ({
            let after = services_after_all(services, updates);
            let batch = batch_after_all(Map::<K, Option<S>>::empty(), updates);
            if i < 0 {
                &&& after.contains_key(key) == services.contains_key(key)
                &&& after.contains_key(key) ==> after[key] == services[key]
                &&& !batch.contains_key(key)
            } else {
                match updates[i] {
                    EndpointUpdate::Insert(_, service) => {
                        &&& after.contains_key(key) && after[key] == service
                        &&& batch.contains_key(key) && batch[key] == Some(service)
                    },
                    EndpointUpdate::Remove(_) => {
                        &&& !after.contains_key(key)
                        &&& batch.contains_key(key) && batch[key] is None
                    },
                }
            }
        }),
    decreases updates.len(),
{
    if updates.len() > 0 && i < updates.len() - 1 {
        let rest = updates.drop_last();
        assert(forall|j: int| 0 <= j < rest.len() ==> #[trigger] rest[j] == updates[j]);
        assert(updates[updates.len() - 1] == updates.last());
        the_last_update_decides(services, rest, key, i);
    }
}

/// A cache holds, of each endpoint that updates were about, what the last of them was. Errors and the
/// end of discovery change nothing, and only the end of discovery ends the polling.
pub proof fn a_cache_holds_the_latest<E>(
    key: String,
    service: u64,
    error: E,
    go_on: bool,
)
    ensures
        forall|cache: &mut EndpointUpdateCache| #[trigger]
            call_ensures(
                EndpointUpdateCache::on_discovered::<E>,
                (cache, Some(Ok(EndpointUpdate::Insert(key, service)))),
                go_on,
            ) ==> go_on && (*final(cache)).pending() == (*cache).pending().insert(
                key@,
                Some(service),
            ),
        forall|cache: &mut EndpointUpdateCache| #[trigger]
            call_ensures(
                EndpointUpdateCache::on_discovered::<E>,
                (cache, Some(Ok(EndpointUpdate::Remove(key)))),
                go_on,
            ) ==> go_on && (*final(cache)).pending() == (*cache).pending().insert(key@, None),
        forall|cache: &mut EndpointUpdateCache| #[trigger]
            call_ensures(
                EndpointUpdateCache::on_discovered::<E>,
                (cache, Some(Err(error))),
                go_on,
            ) ==> go_on && (*final(cache)).pending() == (*cache).pending(),
        forall|cache: &mut EndpointUpdateCache| #[trigger]
            call_ensures(EndpointUpdateCache::on_discovered::<E>, (cache, None), go_on) ==> !go_on
                && (*final(cache)).pending() == (*cache).pending(),
{
}

/// Consuming hands out all that is pending and leaves nothing.
pub proof fn consuming_empties_the_cache(
    batch: Arc<DashMap<String, Option<u64>>>,
    len: usize,
    empty: bool,
    fresh: EndpointUpdateCache,
)
    ensures
        forall|cache: &mut EndpointUpdateCache|
            #![trigger call_ensures(EndpointUpdateCache::consume, (cache,), batch)]
            call_ensures(EndpointUpdateCache::consume, (cache,), batch) && call_ensures(
                EndpointUpdateCache::len,
                (&*final(cache),),
                len,
            ) && call_ensures(EndpointUpdateCache::is_empty, (&*final(cache),), empty) ==> {
                &&& batch_updates(*batch) == (*cache).pending()
                &&& (*final(cache)).pending() == Map::<Seq<char>, Option<u64>>::empty()
                &&& len == 0
                &&& empty
            },
        call_ensures(EndpointUpdateCache::new, (), fresh) ==> fresh.pending() == Map::<
            Seq<char>,
            Option<u64>,
        >::empty(),
{
}

/// A cache counts the endpoints that updates are pending for.
pub proof fn a_cache_counts_its_endpoints(cache: EndpointUpdateCache, len: usize, empty: bool)
    requires
        cache.pending().dom().finite(),
        call_ensures(EndpointUpdateCache::len, (&cache,), len),
        call_ensures(EndpointUpdateCache::is_empty, (&cache,), empty),
    ensures
        len == cache.pending().dom().len(),
        empty <==> len == 0,
{
    if len == 0 {
        assert(cache.pending().dom() =~= Set::<Seq<char>>::empty());
        assert(cache.pending() =~= Map::<Seq<char>, Option<u64>>::empty());
    }
}

}
