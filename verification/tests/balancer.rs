use std::sync::atomic::{AtomicUsize, Ordering};
use std::sync::Arc;
use std::task::{Context, Poll};
use tonic_xds::cluster::loadbalance::Readiness;
use tonic_xds::lb::balancer::{
    choose_index, EndpointChangeType, LbPicker, LoadBalancer, P2cPicker,
};
use tonic_xds::lb::discover::EndpointUpdate;
use tower::load::Load;
use tower::ready_cache::ReadyCache;
use tower::{BoxError, Service};

/// A mock service that tracks load via in-flight count.
struct MockService {
    in_flight: Arc<AtomicUsize>,
}

impl MockService {
    fn new() -> Self {
        Self {
            in_flight: Arc::new(AtomicUsize::new(0)),
        }
    }

    fn with_load(load: usize) -> Self {
        Self {
            in_flight: Arc::new(AtomicUsize::new(load)),
        }
    }
}

impl Service<()> for MockService {
    type Response = ();
    type Error = BoxError;
    type Future = std::future::Ready<Result<(), BoxError>>;

    fn poll_ready(&mut self, _cx: &mut Context<'_>) -> Poll<Result<(), Self::Error>> {
        Poll::Ready(Ok(()))
    }

    fn call(&mut self, _req: ()) -> Self::Future {
        std::future::ready(Ok(()))
    }
}

impl Load for MockService {
    type Metric = usize;

    fn load(&self) -> Self::Metric {
        self.in_flight.load(Ordering::SeqCst)
    }
}

/// Picks among the ready services of the cache.
fn pick(picker: &mut P2cPicker, ready: &ReadyCache<&str, MockService, ()>) -> Option<usize> {
    picker.pick(
        ready.ready_len(),
        |i: usize| ready.get_ready_index(i).map(|(_, svc)| svc.load()),
        &(),
    )
}

#[test]
fn test_p2c_picker_empty_cache() {
    let mut picker = P2cPicker::new(42);
    let ready: ReadyCache<&str, MockService, ()> = ReadyCache::default();

    let result = pick(&mut picker, &ready);
    assert!(result.is_none());
}

#[test]
fn test_p2c_picker_single_endpoint() {
    let mut picker = P2cPicker::new(42);
    let mut ready: ReadyCache<&str, MockService, ()> = ReadyCache::default();
    ready.push("addr1", MockService::new());

    // Drive to ready
    let waker = std::task::Waker::noop().clone();
    let mut cx = Context::from_waker(&waker);
    let _ = ready.poll_pending(&mut cx);

    let result = pick(&mut picker, &ready);
    assert_eq!(result, Some(0));
}

#[test]
fn test_p2c_picker_prefers_lower_load() {
    let mut picker = P2cPicker::new(42);
    let mut ready: ReadyCache<&str, MockService, ()> = ReadyCache::default();
    ready.push("low", MockService::with_load(1));
    ready.push("high", MockService::with_load(100));

    // Drive to ready
    let waker = std::task::Waker::noop().clone();
    let mut cx = Context::from_waker(&waker);
    let _ = ready.poll_pending(&mut cx);

    // With only 2 endpoints, P2C always compares both
    // The one with lower load should always be picked
    let mut low_idx_count = 0;
    for _ in 0..100 {
        let idx = pick(&mut picker, &ready).unwrap();
        // Check which service is at the picked index
        let (key, _) = ready.get_ready_index(idx).unwrap();
        if *key == "low" {
            low_idx_count += 1;
        }
    }

    assert_eq!(low_idx_count, 100);
}

#[test]
fn test_p2c_picker_on_endpoint_change() {
    let mut picker = P2cPicker::new(42);

    // P2C should ignore endpoint changes (no-op)
    LbPicker::<usize, ()>::on_endpoint_change(&mut picker, "addr1", EndpointChangeType::Insert);
    LbPicker::<usize, ()>::on_endpoint_change(&mut picker, "addr1", EndpointChangeType::Remove);

    // Should still work after changes
    let ready: ReadyCache<&str, MockService, ()> = ReadyCache::default();
    assert!(pick(&mut picker, &ready).is_none());
}

#[test]
fn the_lower_load_is_chosen_and_the_first_of_equals() {
    assert_eq!(choose_index(3, Some(5), 8, Some(4)), Some(8));
    assert_eq!(choose_index(3, Some(4), 8, Some(5)), Some(3));
    assert_eq!(choose_index(3, Some(4), 8, Some(4)), Some(3));
    assert_eq!(choose_index(3, None::<u64>, 8, Some(4)), None);
    assert_eq!(choose_index(3, Some(4), 8, None), None);
    // Loads of any type, also where they do not compare
    assert_eq!(choose_index(3, Some(0.5), 8, Some(0.25)), Some(8));
    assert_eq!(choose_index(3, Some(f64::NAN), 8, Some(0.25)), Some(3));
    assert_eq!(choose_index(3, Some("b"), 8, Some("a")), Some(8));
}

#[test]
fn every_endpoint_is_picked_in_the_end() {
    let mut picker = P2cPicker::from_entropy();
    let mut counts = [0u32; 5];
    for _ in 0..2000 {
        let idx = picker.pick(5, |_| Some(1), &()).unwrap();
        counts[idx] += 1;
    }
    for count in counts {
        assert!(count > 0);
    }
}

#[test]
fn the_most_loaded_of_many_is_never_picked() {
    let mut picker = P2cPicker::new(7);
    for _ in 0..1000 {
        let idx = picker.pick(4, |i| Some(i as u64), &"request").unwrap();
        assert!(idx < 3);
    }
}

type Balancer = LoadBalancer<P2cPicker, u64, ()>;

#[test]
fn pickers_of_one_seed_pick_alike_whatever_they_are_told() {
    let mut told = P2cPicker::new(99);
    let mut untold = P2cPicker::new(99);
    for i in 0..50 {
        LbPicker::<u64, ()>::on_endpoint_change(&mut told, "addr1", EndpointChangeType::Insert);
        let load = |at: usize| Some((at as u64 * 7 + i) % 5);
        assert_eq!(told.pick(6, load, &()), untold.pick(6, load, &()));
    }
}

/// Sorts updates by their endpoint.
fn sorted(mut updates: Vec<EndpointUpdate<String, u64>>) -> Vec<EndpointUpdate<String, u64>> {
    updates.sort_by(|a, b| a.key().cmp(b.key()));
    updates
}

#[test]
fn pending_updates_come_out_once() {
    let mut balancer = Balancer::new(P2cPicker::new(1));
    assert!(balancer.on_discovered::<()>(Some(Ok(EndpointUpdate::Insert("a".to_string(), 1)))));
    assert!(balancer.on_discovered::<()>(Some(Ok(EndpointUpdate::Insert("b".to_string(), 2)))));
    assert!(balancer.on_discovered::<()>(Some(Ok(EndpointUpdate::Insert("a".to_string(), 3)))));
    assert!(balancer.on_discovered::<()>(Some(Ok(EndpointUpdate::Remove("b".to_string())))));
    assert!(balancer.on_discovered(Some(Err(()))));
    assert!(!balancer.on_discovered::<()>(None));

    let updates = balancer.consume_updates().unwrap();
    assert_eq!(
        sorted(updates),
        vec![
            EndpointUpdate::Insert("a".to_string(), 3),
            EndpointUpdate::Remove("b".to_string()),
        ]
    );
    assert_eq!(balancer.consume_updates().unwrap(), vec![]);
}

#[test]
fn a_batch_that_is_still_held_is_skipped() {
    let mut balancer = Balancer::new(P2cPicker::new(1));
    assert!(balancer.apply_updates(None).is_none());
}

#[test]
fn a_balancer_is_ready_where_an_endpoint_is() {
    assert_eq!(Balancer::readiness(1, 0), Readiness::Ready);
    assert_eq!(Balancer::readiness(1, 4), Readiness::Ready);
    assert_eq!(Balancer::readiness(0, 4), Readiness::Pending);
    assert_eq!(Balancer::readiness(0, 0), Readiness::Pending);
}

#[test]
fn a_call_goes_to_the_less_loaded_endpoint() {
    let mut balancer = Balancer::new(P2cPicker::new(1));
    assert_eq!(balancer.call(1, |_| Some(9), &()), 0);
    for _ in 0..50 {
        assert_eq!(balancer.call(2, |i| Some(10 - i as u64), &()), 1);
    }
}
