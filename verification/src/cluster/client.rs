//! The clients of the clusters.

use crate::ext::maps::{client_or_insert_with, clients_by_name, new_clients};
use dashmap::DashMap;
use vstd::prelude::*;

verus! {

/// How many calls wait for a cluster's balancer at most.
pub const DEFAULT_BUFFER_CAPACITY: usize = 1024;

/// The client that the registry hands out for a cluster, and the clients that it has afterwards,
/// where `made` is what would be made.
pub open spec fn handed_out(clients: Map<Seq<char>, u64>, key: Seq<char>, made: u64) -> (
    u64,
    Map<Seq<char>, u64>,
) {
    if clients.contains_key(key) {
        (clients[key], clients)
    } else {
        (made, clients.insert(key, made))
    }
}

/// `ClusterClientRegistry` is the client registry for all xDS clusters: for each cluster, by its
/// name, the handle of the one client for it.
pub struct ClusterClientRegistry {
    registry: DashMap<String, u64>,
}

impl ClusterClientRegistry {
    /// The clients, by cluster name.
    pub closed spec fn clients(&self) -> Map<Seq<char>, u64> {
        clients_by_name(self.registry)
    }

    /// Creates a new `ClusterClientRegistry`.
    pub fn new() -> (registry: Self)
        ensures
            registry.clients() == Map::<Seq<char>, u64>::empty(),
    {
        ClusterClientRegistry { registry: new_clients() }
    }

    /// Get the client of a cluster with lazy discovery: `make` runs, and makes the client, only
    /// where the cluster has none.
    pub fn get_cluster<F: FnOnce() -> u64>(&mut self, key: &str, make: F) -> (client: u64)
        requires
            !old(self).clients().contains_key(key@) ==> make.requires(()),
        ensures
            exists|made: u64|
                {
                    &&& (client, final(self).clients()) == #[trigger] handed_out(
                        old(self).clients(),
                        key@,
                        made,
                    )
                    &&& !old(self).clients().contains_key(key@) ==> make.ensures((), made)
                },
    {
        let client = client_or_insert_with(&mut self.registry, key.to_string(), make);
        assert((client, self.clients()) == handed_out(old(self).clients(), key@, client));
        client
    }
}

impl Default for ClusterClientRegistry {
    fn default() -> (registry: Self)
        ensures
            registry.clients() == Map::<Seq<char>, u64>::empty(),
    {
        ClusterClientRegistry::new()
    }
}

/// A cluster keeps the client it was first given: whatever is asked of the registry in between, of
/// this cluster or another, the same client comes out.
pub proof fn a_cluster_has_one_client(
    clients: Map<Seq<char>, u64>,
    key: Seq<char>,
    made: u64,
    other: Seq<char>,
    made_for_other: u64,
    made_later: u64,
)
    ensures
        ({
            let (first, after_first) = handed_out(clients, key, made);
            let (_, after_other) = handed_out(after_first, other, made_for_other);
            handed_out(after_other, key, made_later) == (first, after_other)
        }),
{
}

/// A cluster's client is made once, by what is given for it, and is handed out ever after; no other
/// cluster's client is touched.
pub proof fn a_client_is_made_once<F: FnOnce() -> u64>(
    key: &str,
    make: F,
    client: u64,
    fresh: ClusterClientRegistry,
    other: Seq<char>,
)
    requires
        other != key@,
    ensures
        call_ensures(ClusterClientRegistry::new, (), fresh) ==> fresh.clients() == Map::<
            Seq<char>,
            u64,
        >::empty(),
        forall|registry: &mut ClusterClientRegistry| #[trigger]
            call_ensures(
                ClusterClientRegistry::get_cluster::<F>,
                (registry, key, make),
                client,
            ) ==> {
                let (before, after) = ((*registry).clients(), (*final(registry)).clients());
                &&& before.contains_key(key@) ==> client == before[key@] && after == before
                &&& !before.contains_key(key@) ==> make.ensures((), client)
                &&& after.contains_key(key@) && after[key@] == client
                &&& after.contains_key(other) == before.contains_key(other)
                &&& before.contains_key(other) ==> after[other] == before[other]
            },
{
}

}
