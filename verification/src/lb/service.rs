//! Load balancing based on routing decisions.

use crate::cluster::client::{handed_out, ClusterClientRegistry};
use crate::cluster::loadbalance::Readiness;
use crate::ext::headers::{route_decision, routed_cluster};
use http::Extensions;
use vstd::prelude::*;

verus! {

/// Where the routing layer has decided to send a request.
#[derive(Debug, Clone, PartialEq, Eq)]
pub struct RouteDecision {
    /// The name of the cluster.
    pub cluster: String,
}

/// Errors that can occur during load balancing.
#[derive(Debug, Clone, Copy, PartialEq, Eq, Structural)]
pub enum LoadBalancingError {
    NoRoutingDecision,
}

impl LoadBalancingError {
    /// The error's text.
    pub fn message(&self) -> (message: &'static str)
        ensures
            message@ == "No routing decision extension from the routing layer available"@,
    {
        match self {
            LoadBalancingError::NoRoutingDecision => {
                "No routing decision extension from the routing layer available"
            },
        }
    }
}

/// Whether a connector can be made for the cluster, and of any such connector a client where the
/// cluster has none.
pub open spec fn can_make<C, F: FnOnce(&str) -> C, G: FnOnce(&str, C) -> u64>(
    clients: Map<Seq<char>, u64>,
    cluster: Seq<char>,
    make_connector: F,
    make_client: G,
) -> bool {
    &&& forall|name: &str| #![trigger name@] name@ == cluster ==> make_connector.requires((name,))
    &&& !clients.contains_key(cluster) ==> forall|name: &str, connector: C|
        name@ == cluster && #[trigger] make_connector.ensures((name,), connector)
            ==> make_client.requires((name, connector))
}

/// Whether a request for the cluster goes to the client, and these are the clients afterwards: a
/// connector was made for the cluster, and where it had no client, the client was made of it.
pub open spec fn goes_to<C, F: FnOnce(&str) -> C, G: FnOnce(&str, C) -> u64>(
    clients: Map<Seq<char>, u64>,
    cluster: Seq<char>,
    make_connector: F,
    make_client: G,
    client: u64,
    after: Map<Seq<char>, u64>,
) -> bool {
    exists|name: &str, connector: C, made: u64|
        #![trigger make_connector.ensures((name,), connector), handed_out(clients, cluster, made)]
        {
            &&& name@ == cluster
            &&& make_connector.ensures((name,), connector)
            &&& (client, after) == handed_out(clients, cluster, made)
            &&& !clients.contains_key(cluster) ==> make_client.ensures((name, connector), made)
        }
}

/// Performs load balancing based on routing decisions.
pub struct XdsLbService {
    cluster_registry: ClusterClientRegistry,
}

impl XdsLbService {
    /// The clients, by cluster name.
    pub closed spec fn clients(&self) -> Map<Seq<char>, u64> {
        self.cluster_registry.clients()
    }

    /// Creates a service that takes its clients from the registry.
    pub fn new(cluster_registry: ClusterClientRegistry) -> (service: Self)
        ensures
            service.clients() == cluster_registry.clients(),
    {
        XdsLbService { cluster_registry }
    }

    /// The service itself is always ready.
    pub fn poll_ready(&self) -> (ready: Readiness<LoadBalancingError>)
        ensures
            ready == Readiness::<LoadBalancingError>::Ready,
    {
        Readiness::Ready
    }

    /// The client that a request goes to: that of the cluster that was decided on. A connector is
    /// made for the cluster, and where it has no client, one is made of the connector. Where nothing
    /// was decided, nothing is made.
    pub fn call_routed<C, F: FnOnce(&str) -> C, G: FnOnce(&str, C) -> u64>(
        &mut self,
        decision: Option<RouteDecision>,
        make_connector: F,
        make_client: G,
    ) -> (client: Result<u64, LoadBalancingError>)
        requires
            decision matches Some(d) ==> can_make(
                old(self).clients(),
                d.cluster@,
                make_connector,
                make_client,
            ),
        ensures
            match decision {
                None => client == Err::<u64, LoadBalancingError>(
                    LoadBalancingError::NoRoutingDecision,
                ) && final(self).clients() == old(self).clients(),
                Some(d) => client matches Ok(c) && goes_to(
                    old(self).clients(),
                    d.cluster@,
                    make_connector,
                    make_client,
                    c,
                    final(self).clients(),
                ),
            },
    {
        match decision {
            Some(d) => {
                let name = d.cluster.as_str();
                let connector = make_connector(name);
                let ghost made_of = connector;
                let make = || -> (made: u64)
                    requires
                        make_client.requires((name, connector)),
                    ensures
                        make_client.ensures((name, connector), made),
                {
                    make_client(name, connector)
                };
                let client = self.cluster_registry.get_cluster(name, make);
                proof {
                    let clients = old(self).clients();
                    let made = choose|made: u64|
                        {
                            &&& (client, self.clients()) == #[trigger] handed_out(
                                clients,
                                name@,
                                made,
                            )
                            &&& !clients.contains_key(name@) ==> make_client.ensures(
                                (name, made_of),
                                made,
                            )
                        };
                    assert(make_connector.ensures((name,), made_of));
                    assert((client, self.clients()) == handed_out(clients, d.cluster@, made));
                }
                Ok(client)
            },
            None => Err(LoadBalancingError::NoRoutingDecision),
        }
    }

    /// The client that a request with the given extensions goes to; the routing decision is among
    /// them.
    pub fn call<C, F: FnOnce(&str) -> C, G: FnOnce(&str, C) -> u64>(
        &mut self,
        extensions: &Extensions,
        make_connector: F,
        make_client: G,
    ) -> (client: Result<u64, LoadBalancingError>)
        requires
            routed_cluster(*extensions) matches Some(cluster) ==> can_make(
                old(self).clients(),
                cluster,
                make_connector,
                make_client,
            ),
        ensures
            match routed_cluster(*extensions) {
                None => client == Err::<u64, LoadBalancingError>(
                    LoadBalancingError::NoRoutingDecision,
                ) && final(self).clients() == old(self).clients(),
                Some(cluster) => client matches Ok(c) && goes_to(
                    old(self).clients(),
                    cluster,
                    make_connector,
                    make_client,
                    c,
                    final(self).clients(),
                ),
            },
    {
        let decision = route_decision(extensions);
        self.call_routed(decision, make_connector, make_client)
    }
}

/// A request goes to the client of the cluster that was decided on: the one that the cluster has, else
/// one that is made of the connector that is made for the cluster, which it then has. No other cluster's
/// client is touched. Where nothing was decided, the request is refused, and nothing changes.
pub proof fn a_request_goes_to_its_cluster<
    C,
    F: FnOnce(&str) -> C,
    G: FnOnce(&str, C) -> u64,
>(
    decision: RouteDecision,
    make_connector: F,
    make_client: G,
    client: Result<u64, LoadBalancingError>,
    other: Seq<char>,
)
    requires
        other != decision.cluster@,
    ensures
        forall|service: &mut XdsLbService| #[trigger]
            call_ensures(
                XdsLbService::call_routed::<C, F, G>,
                (service, Some(decision), make_connector, make_client),
                client,
            ) ==> {
                let name = decision.cluster@;
                let (before, after) = ((*service).clients(), (*final(service)).clients());
                &&& client is Ok
                &&& before.contains_key(name) ==> client->Ok_0 == before[name] && after == before
                &&& !before.contains_key(name) ==> exists|n: &str, connector: C|
                    #![trigger make_connector.ensures((n,), connector)]
                    n@ == name && make_connector.ensures((n,), connector) && make_client.ensures(
                        (n, connector),
                        client->Ok_0,
                    )
                &&& after.contains_key(name) && after[name] == client->Ok_0
                &&& after.contains_key(other) == before.contains_key(other)
                &&& before.contains_key(other) ==> after[other] == before[other]
            },
        forall|service: &mut XdsLbService| #[trigger]
            call_ensures(
                XdsLbService::call_routed::<C, F, G>,
                (service, None, make_connector, make_client),
                client,
            ) ==> client == Err::<u64, LoadBalancingError>(LoadBalancingError::NoRoutingDecision)
                && (*final(service)).clients() == (*service).clients(),
{
}

/// The decision that a request goes by is the one among its extensions.
pub proof fn the_decision_is_taken_from_the_extensions<
    C,
    F: FnOnce(&str) -> C,
    G: FnOnce(&str, C) -> u64,
>(
    extensions: Extensions,
    make_connector: F,
    make_client: G,
    client: Result<u64, LoadBalancingError>,
)
    ensures
        forall|service: &mut XdsLbService| #[trigger]
            call_ensures(
                XdsLbService::call::<C, F, G>,
                (service, &extensions, make_connector, make_client),
                client,
            ) ==> {
                let (before, after) = ((*service).clients(), (*final(service)).clients());
                match routed_cluster(extensions) {
                    None => client == Err::<u64, LoadBalancingError>(
                        LoadBalancingError::NoRoutingDecision,
                    ) && after == before,
                    Some(name) => {
                        &&& client is Ok
                        &&& before.contains_key(name) ==> client->Ok_0 == before[name] && after
                            == before
                        &&& !before.contains_key(name) ==> exists|n: &str, connector: C|
                            #![trigger make_connector.ensures((n,), connector)]
                            n@ == name && make_connector.ensures((n,), connector)
                                && make_client.ensures((n, connector), client->Ok_0)
                        &&& after == before.insert(name, client->Ok_0)
                    },
                }
            },
{
    assert forall|service: &mut XdsLbService| #[trigger]
        call_ensures(
            XdsLbService::call::<C, F, G>,
            (service, &extensions, make_connector, make_client),
            client,
        ) implies {
        let (before, after) = ((*service).clients(), (*final(service)).clients());
        match routed_cluster(extensions) {
            None => client == Err::<u64, LoadBalancingError>(
                LoadBalancingError::NoRoutingDecision,
            ) && after == before,
            Some(name) => {
                &&& client is Ok
                &&& before.contains_key(name) ==> client->Ok_0 == before[name] && after == before
                &&& !before.contains_key(name) ==> exists|n: &str, connector: C|
                    #![trigger make_connector.ensures((n,), connector)]
                    n@ == name && make_connector.ensures((n,), connector) && make_client.ensures(
                        (n, connector),
                        client->Ok_0,
                    )
                &&& after == before.insert(name, client->Ok_0)
            },
        }
    } by {
        let before = (*service).clients();
        match routed_cluster(extensions) {
            Some(name) => {
                assert(before.contains_key(name) ==> before =~= before.insert(name, before[name]));
            },
            None => {},
        }
    }
}

/// A service takes its clients from its registry, is always ready, and says why it refuses a request.
pub proof fn a_service_starts_from_its_registry(
    registry: ClusterClientRegistry,
    service: XdsLbService,
    ready: Readiness<LoadBalancingError>,
    message: &'static str,
)
    requires
        call_ensures(XdsLbService::new, (registry,), service),
        call_ensures(XdsLbService::poll_ready, (&service,), ready),
        call_ensures(
            LoadBalancingError::message,
            (&LoadBalancingError::NoRoutingDecision,),
            message,
        ),
    ensures
        service.clients() == registry.clients(),
        ready is Ready,
        message@ == "No routing decision extension from the routing layer available"@,
{
}

}
