use http::Extensions;
use std::collections::{HashMap, HashSet};
use tonic_xds::cluster::client::{ClusterClientRegistry, DEFAULT_BUFFER_CAPACITY};
use tonic_xds::cluster::loadbalance::{ClusterCallError, ClusterLoadBalancer, Readiness};
use tonic_xds::cluster::picker::{prefer_lower_load, EndpointChange, P2cPicker, Picker};
use tonic_xds::endpoint::{EndpointChannel, Load};
use tonic_xds::lb::discover::{EndpointUpdate, Polled};
use tonic_xds::lb::service::{LoadBalancingError, RouteDecision, XdsLbService};
use tonic_xds::sampling::{floyd2, skip_position};

fn channel(load: u64) -> EndpointChannel<u64> {
    let mut channel = EndpointChannel::new(load);
    for _ in 0..load {
        channel.call_started();
    }
    channel
}

fn services(loads: &[(u64, u64)]) -> HashMap<u64, EndpointChannel<u64>> {
    loads.iter().map(|(k, load)| (*k, channel(*load))).collect()
}

/// Tells the picker of a change.
fn update(picker: &mut P2cPicker<u64>, change: EndpointChange<u64>) {
    Picker::<EndpointChannel<u64>>::update(picker, change)
}

fn picker(keys: &[u64]) -> P2cPicker<u64> {
    let mut picker = P2cPicker::new();
    for key in keys {
        update(&mut picker, EndpointChange::Insert(*key));
    }
    picker
}

#[test]
fn nothing_is_picked_where_there_is_nothing() {
    let mut empty: P2cPicker<u64> = P2cPicker::default();
    assert_eq!(empty.pick(&services(&[(1, 0)]), &HashSet::new()), None);
    let mut one = picker(&[1]);
    assert_eq!(one.pick(&services(&[(1, 0)]), &HashSet::from([1])), None);
}

#[test]
fn the_only_endpoint_is_picked() {
    let mut one = picker(&[1]);
    assert_eq!(one.pick(&services(&[(1, 9)]), &HashSet::new()), Some(1));
    // Even without a service
    assert_eq!(one.pick(&services(&[]), &HashSet::new()), Some(1));
    let mut two = picker(&[1, 2]);
    let loads = services(&[(1, 9), (2, 0)]);
    assert_eq!(two.pick(&loads, &HashSet::from([2])), Some(1));
}

#[test]
fn of_two_endpoints_the_less_loaded_is_picked() {
    let mut two = picker(&[1, 2]);
    let loads = services(&[(1, 9), (2, 3)]);
    for _ in 0..50 {
        assert_eq!(two.pick(&loads, &HashSet::new()), Some(2));
    }
}

#[test]
fn an_endpoint_with_a_service_is_preferred() {
    let mut two = picker(&[1, 2]);
    for _ in 0..20 {
        assert_eq!(two.pick(&services(&[(1, 9)]), &HashSet::new()), Some(1));
        assert_eq!(two.pick(&services(&[]), &HashSet::new()), None);
    }
}

#[test]
fn every_endpoint_but_the_most_loaded_is_picked_in_the_end() {
    let mut five = picker(&[10, 11, 12, 13, 14]);
    let loads = services(&[(10, 1), (11, 1), (12, 1), (13, 1), (14, 5)]);
    let mut picked = HashSet::new();
    for _ in 0..2000 {
        picked.insert(five.pick(&loads, &HashSet::new()).unwrap());
    }
    assert_eq!(picked, HashSet::from([10, 11, 12, 13]));
}

#[test]
fn removed_endpoints_are_not_picked() {
    let mut picker = picker(&[1, 2, 1]);
    update(&mut picker, EndpointChange::Remove(1));
    let loads = services(&[(1, 0), (2, 5)]);
    assert_eq!(picker.pick(&loads, &HashSet::new()), Some(2));
    // Unknown
    update(&mut picker, EndpointChange::Remove(7));
    // Ejections are told with each pick
    update(&mut picker, EndpointChange::Eject(2));
    assert_eq!(picker.pick(&loads, &HashSet::new()), Some(2));
    update(&mut picker, EndpointChange::Uneject(1));
    assert_eq!(picker.pick(&loads, &HashSet::new()), Some(2));
}

#[test]
fn loads_decide_between_two_keys() {
    assert_eq!(prefer_lower_load(&1u64, Some(3), &2, Some(4)), Some(1));
    assert_eq!(prefer_lower_load(&1u64, Some(4), &2, Some(4)), Some(1));
    assert_eq!(prefer_lower_load(&1u64, Some(5), &2, Some(4)), Some(2));
    assert_eq!(prefer_lower_load(&1u64, Some(5), &2, None), Some(1));
    assert_eq!(prefer_lower_load(&1u64, None, &2, Some(4)), Some(2));
    assert_eq!(prefer_lower_load(&1u64, None::<u64>, &2, None), None);
    // Loads of any type, also where they do not compare
    assert_eq!(prefer_lower_load(&1u64, Some(0.5), &2, Some(0.25)), Some(2));
    assert_eq!(prefer_lower_load(&1u64, Some(f64::NAN), &2, Some(0.25)), Some(2));
}

type Balancer = ClusterLoadBalancer<u64, EndpointChannel<u64>, P2cPicker<u64>>;

#[test]
fn a_balancer_is_ready_while_it_has_endpoints() {
    let mut balancer: Balancer = ClusterLoadBalancer::new(P2cPicker::new());
    assert!(balancer.is_empty());
    assert_eq!(balancer.poll_ready::<()>(vec![], None), Readiness::Pending);
    assert_eq!(
        balancer.call().err(),
        Some(ClusterCallError::NoEndpoints)
    );

    let inserts = vec![
        EndpointUpdate::Insert(1, channel(4)),
        EndpointUpdate::Insert(2, channel(2)),
    ];
    assert_eq!(balancer.poll_ready::<()>(inserts, None), Readiness::Ready);
    assert_eq!(balancer.len(), 2);
    assert!(!balancer.is_empty());
    for _ in 0..20 {
        assert_eq!(*balancer.call().unwrap().inner(), 2);
    }

    // A new service for a known endpoint takes the place of the old one
    let replaced = vec![EndpointUpdate::Insert(2, channel(9))];
    assert_eq!(balancer.poll_ready::<()>(replaced, None), Readiness::Ready);
    assert_eq!(balancer.len(), 2);
    assert_eq!(balancer.call().unwrap().load(), 4);

    let removals = vec![EndpointUpdate::Remove(1), EndpointUpdate::Remove(2)];
    assert_eq!(balancer.poll_ready::<()>(removals, None), Readiness::Pending);
    assert!(balancer.is_empty());
    assert!(balancer.call().is_err());
}

#[test]
fn the_changes_before_a_failure_of_discovery_count() {
    let mut balancer: Balancer = ClusterLoadBalancer::new(P2cPicker::new());
    let inserts = vec![EndpointUpdate::Insert(1, channel(4))];
    assert_eq!(
        balancer.poll_ready(inserts, Some("broken")),
        Readiness::Failed("broken")
    );
    assert_eq!(balancer.len(), 1);
    assert_eq!(balancer.poll_ready::<()>(vec![], None), Readiness::Ready);
}

#[test]
fn an_endpoint_that_only_the_picker_knows_is_not_found() {
    let mut balancer: Balancer = ClusterLoadBalancer::new(picker(&[9]));
    assert_eq!(
        balancer.call().err(),
        Some(ClusterCallError::EndpointNotFound)
    );
}

#[test]
fn the_picker_is_told_of_each_change_in_order() {
    let mut balancer: Balancer = ClusterLoadBalancer::new(P2cPicker::new());
    let changes = vec![
        EndpointUpdate::Insert(1, channel(4)),
        EndpointUpdate::Insert(2, channel(6)),
        EndpointUpdate::Remove(1),
        EndpointUpdate::Insert(3, channel(8)),
        EndpointUpdate::Remove(3),
        EndpointUpdate::Remove(7),
    ];
    assert_eq!(
        balancer.poll_ready(changes, Some("broken")),
        Readiness::Failed("broken")
    );
    for _ in 0..20 {
        assert_eq!(*balancer.call().unwrap().inner(), 6);
    }
}

#[test]
fn the_texts_of_the_errors() {
    assert_eq!(
        ClusterCallError::NoEndpoints.message(),
        "no endpoints available"
    );
    assert_eq!(
        ClusterCallError::EndpointNotFound.message(),
        "endpoint not found"
    );
    assert_eq!(
        LoadBalancingError::NoRoutingDecision.message(),
        "No routing decision extension from the routing layer available"
    );
}

#[test]
fn a_cluster_has_one_client() {
    let mut registry = ClusterClientRegistry::default();
    assert_eq!(registry.get_cluster("a", || 7), 7);
    assert_eq!(registry.get_cluster("b", || 8), 8);
    assert_eq!(
        registry.get_cluster("a", || panic!("the cluster has a client")),
        7
    );
    assert_eq!(registry.get_cluster("b", || 9), 8);
    assert_eq!(DEFAULT_BUFFER_CAPACITY, 1024);
}

fn decision(cluster: &str) -> RouteDecision {
    RouteDecision {
        cluster: cluster.to_string(),
    }
}

#[test]
fn a_request_goes_to_the_client_of_its_cluster() {
    let mut service = XdsLbService::new(ClusterClientRegistry::new());
    assert_eq!(service.poll_ready(), Readiness::Ready);
    assert_eq!(
        service.call_routed(Some(decision("a")), |name| name.len(), |_, len| len as u64 + 1),
        Ok(2)
    );
    assert_eq!(
        service.call_routed(
            Some(decision("a")),
            |_| (),
            |_, _| panic!("the cluster has a client")
        ),
        Ok(2)
    );
    assert_eq!(
        service.call_routed(
            None,
            |_| panic!("nothing was decided"),
            |_, ()| panic!("nothing was decided")
        ),
        Err(LoadBalancingError::NoRoutingDecision)
    );
}

#[test]
fn the_decision_is_among_the_extensions_of_the_request() {
    let mut service = XdsLbService::new(ClusterClientRegistry::new());
    let mut extensions = Extensions::new();
    extensions.insert("not a decision".to_string());
    assert_eq!(
        service.call(
            &extensions,
            |_| panic!("nothing was decided"),
            |_, ()| panic!("nothing was decided")
        ),
        Err(LoadBalancingError::NoRoutingDecision)
    );
    extensions.insert(decision("alpha"));
    let connector = |name: &str| format!("connector of {name}");
    let client = |name: &str, connector: String| {
        assert_eq!(name, "alpha");
        assert_eq!(connector, "connector of alpha");
        5
    };
    assert_eq!(service.call(&extensions, connector, client), Ok(5));
    extensions.insert(decision("beta"));
    assert_eq!(service.call(&extensions, connector, |_, _| 6), Ok(6));
    extensions.insert(decision("alpha"));
    assert_eq!(service.call(&extensions, connector, |_, _| 7), Ok(5));
}

#[test]
fn polls_of_discovery_are_taken_in_one_by_one() {
    let mut balancer: Balancer = ClusterLoadBalancer::new(P2cPicker::new());
    assert_eq!(
        balancer.on_discovered::<()>(Polled::Pending),
        Some(Readiness::Pending)
    );
    assert_eq!(
        balancer.on_discovered::<()>(Polled::Exhausted),
        Some(Readiness::Pending)
    );
    let insert = EndpointUpdate::Insert(1, channel(4));
    assert_eq!(balancer.on_discovered::<()>(Polled::Update(Ok(insert))), None);
    assert_eq!(
        balancer.on_discovered(Polled::Update(Err("broken"))),
        Some(Readiness::Failed("broken"))
    );
    assert_eq!(
        balancer.on_discovered::<()>(Polled::Pending),
        Some(Readiness::Ready)
    );
    assert_eq!(
        balancer.on_discovered::<()>(Polled::Exhausted),
        Some(Readiness::Ready)
    );
    assert_eq!(balancer.call().unwrap().load(), 4);
    let remove = EndpointUpdate::Remove(1);
    assert_eq!(balancer.on_discovered::<()>(Polled::Update(Ok(remove))), None);
    assert!(balancer.is_empty());
}

#[test]
fn two_positions_are_distinct() {
    assert_eq!(skip_position(0, 0, 2), 1);
    assert_eq!(skip_position(1, 0, 2), 0);
    assert_eq!(skip_position(2, 1, 5), 1);
    assert_eq!(skip_position(2, 2, 5), 3);
    assert_eq!(floyd2(2, 0, 0), [1, 0]);
    assert_eq!(floyd2(2, 0, 1), [0, 1]);
    assert_eq!(floyd2(5, 3, 3), [4, 3]);
    assert_eq!(floyd2(5, 3, 4), [3, 4]);

    let mut skipped = HashSet::new();
    let mut sampled = HashSet::new();
    for a in 0..6 {
        for b in 0..7 {
            skipped.insert((b, skip_position(b, a, 7)));
            let [x, y] = floyd2(7, a, b);
            sampled.insert((x, y));
        }
    }
    assert_eq!(skipped.len(), 42);
    assert_eq!(sampled.len(), 42);
    for (x, y) in skipped.union(&sampled) {
        assert!(x != y && *x < 7 && *y < 7);
    }
}
