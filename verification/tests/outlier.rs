use tonic_xds::cluster::classify::{CallOutcome, NoopClassifier};
use tonic_xds::cluster::outlier::{
    EjectionChecker, GrpcOutlierDetector, NoOutlierDetector, OutlierChange,
    OutlierDetectionConfig, OutlierDetector,
};
use tonic_xds::endpoint::{EndpointChannel, OutlierDetectionStats};
use tonic_xds::status::{CallError, ErrorCause, Status};

const SECOND: u64 = 1_000_000_000;

/// A configuration that allows all endpoints to be ejected.
fn without_maximum() -> OutlierDetectionConfig {
    let mut config = OutlierDetectionConfig::default();
    config.max_ejection_percent = 100;
    config
}

fn detector(keys: &[u64]) -> GrpcOutlierDetector<u64> {
    let mut detector = GrpcOutlierDetector::new(without_maximum());
    for key in keys {
        detector.on_endpoint_added(*key);
    }
    detector
}

#[test]
fn the_default_configuration() {
    let config = OutlierDetectionConfig::default();
    assert_eq!(config.interval, 10 * SECOND);
    assert_eq!(config.base_ejection_time, 30 * SECOND);
    assert_eq!(config.max_ejection_time, 300 * SECOND);
    assert_eq!(config.max_ejection_percent, 10);
    assert_eq!(config.consecutive_failures_threshold, 5);
    assert_eq!(config.failure_percentage_threshold, 50);
    assert_eq!(config.failure_percentage_request_volume, 100);
}

#[test]
fn an_endpoint_is_checked_against_both_thresholds() {
    let checker = detector(&[]).checker();
    // Consecutive failures
    assert!(!checker.should_eject(4, 4, 4));
    assert!(checker.should_eject(5, 5, 5));
    assert!(checker.should_eject(6, 6, 6));
    // Failure percentage: more than half, of at least a hundred
    assert!(!checker.should_eject(99, 99, 0));
    assert!(!checker.should_eject(50, 100, 0));
    assert!(checker.should_eject(51, 100, 0));
    assert!(!checker.should_eject(100, 200, 0));
    assert!(checker.should_eject(101, 200, 0));
    assert!(!checker.should_eject(0, 0, 0));
}

#[test]
fn a_threshold_of_zero_disables_the_check_of_consecutive_failures() {
    let mut config = OutlierDetectionConfig::default();
    config.consecutive_failures_threshold = 0;
    config.failure_percentage_threshold = 100;
    let checker = GrpcOutlierDetector::<u64>::new(config).checker();
    assert!(!checker.should_eject(1000, 1000, 1000));
}

#[test]
fn requests_reach_the_detector() {
    let mut detector = detector(&[1, 2]);
    let mut checker = detector.checker();
    let mut copy = checker.clone();
    assert!(checker.check(&1, 5, 5, 5));
    assert!(!checker.check(&2, 4, 5, 4));
    // Twice over, by way of a clone
    assert!(copy.check(&1, 6, 6, 6));
    // Not in the topology
    assert!(copy.check(&9, 6, 6, 6));

    assert_eq!(detector.poll_changes(0), vec![OutlierChange::Ejected(1)]);
    assert_eq!(detector.poll_changes(1), vec![]);
    // Ejected already
    assert!(checker.check(&1, 7, 7, 7));
    assert_eq!(detector.poll_changes(2), vec![]);
}

#[test]
fn nothing_is_requested_below_the_thresholds() {
    let mut detector = detector(&[1]);
    let mut checker = detector.checker();
    assert!(!checker.check(&1, 50, 100, 4));
    assert!(!checker.check(&1, 99, 99, 4));
    assert_eq!(detector.poll_changes(0), vec![]);
    assert!(checker.check(&1, 51, 100, 0));
    assert_eq!(detector.poll_changes(0), vec![OutlierChange::Ejected(1)]);
}

#[test]
fn ejections_and_restorations_balance() {
    let mut detector = detector(&[1, 2]);
    let mut ejections = 0;
    let mut restorations = 0;
    for now in 0..200u64 {
        // Asked for again and again
        let changes = detector.apply_requests(vec![1, 2, 1], now * SECOND);
        for change in changes {
            match change {
                OutlierChange::Ejected(1) => ejections += 1,
                OutlierChange::Unejected(1) => restorations += 1,
                _ => {}
            }
            assert!(ejections == restorations || ejections == restorations + 1);
        }
    }
    // Ejected at 0, 31, 62 and so on, each time for thirty seconds
    assert_eq!(ejections, 7);
    assert_eq!(restorations, 6);
    // The last one is undone once
    assert_eq!(
        detector.poll_changes(1000 * SECOND),
        vec![OutlierChange::Unejected(1), OutlierChange::Unejected(2)]
    );
    assert_eq!(detector.poll_changes(2000 * SECOND), vec![]);
}

#[test]
fn a_checker_outlives_its_detector() {
    let mut checker = detector(&[1]).checker();
    assert!(checker.check(&1, 5, 5, 5));
}

#[test]
fn an_ejection_lasts_its_time() {
    let mut detector = detector(&[1]);
    assert_eq!(
        detector.apply_requests(vec![1], 5 * SECOND),
        vec![OutlierChange::Ejected(1)]
    );
    assert_eq!(detector.poll_changes(35 * SECOND - 1), vec![]);
    assert_eq!(
        detector.poll_changes(35 * SECOND),
        vec![OutlierChange::Unejected(1)]
    );
    assert_eq!(detector.poll_changes(36 * SECOND), vec![]);
    // And can be ejected again
    assert_eq!(
        detector.apply_requests(vec![1], 40 * SECOND),
        vec![OutlierChange::Ejected(1)]
    );
}

#[test]
fn ejections_end_in_the_order_of_their_times() {
    let mut detector = detector(&[1, 2, 3]);
    assert_eq!(
        detector.apply_requests(vec![3], 10 * SECOND),
        vec![OutlierChange::Ejected(3)]
    );
    // The clock need not be monotonic
    assert_eq!(
        detector.apply_requests(vec![1, 2], 4 * SECOND),
        vec![OutlierChange::Ejected(1), OutlierChange::Ejected(2)]
    );
    assert_eq!(
        detector.poll_changes(34 * SECOND),
        vec![OutlierChange::Unejected(1), OutlierChange::Unejected(2)]
    );
    assert_eq!(
        detector.poll_changes(u64::MAX),
        vec![OutlierChange::Unejected(3)]
    );
}

#[test]
fn an_ejection_without_duration_ends_at_once() {
    let mut config = without_maximum();
    config.base_ejection_time = 0;
    let mut detector = GrpcOutlierDetector::new(config);
    detector.on_endpoint_added(1u64);
    assert_eq!(
        detector.apply_requests(vec![1], 7),
        vec![OutlierChange::Ejected(1), OutlierChange::Unejected(1)]
    );
}

#[test]
fn removed_endpoints_are_left_alone() {
    let mut detector = detector(&[1, 2]);
    assert_eq!(detector.fleet_size(), 2);
    assert_eq!(
        detector.apply_requests(vec![1], 0),
        vec![OutlierChange::Ejected(1)]
    );
    detector.on_endpoint_removed(&1);
    assert_eq!(detector.fleet_size(), 1);
    assert_eq!(detector.apply_requests(vec![1, 1], 1), vec![]);
    assert_eq!(detector.poll_changes(30 * SECOND), vec![]);
}

#[test]
fn a_returning_endpoint_starts_afresh() {
    let mut detector = detector(&[1, 2]);
    assert_eq!(
        detector.apply_requests(vec![1, 2], 0),
        vec![OutlierChange::Ejected(1), OutlierChange::Ejected(2)]
    );
    detector.on_endpoint_removed(&1);
    detector.on_endpoint_added(1);
    // Back in the topology it is not ejected, and can be
    assert_eq!(
        detector.apply_requests(vec![1], 10 * SECOND),
        vec![OutlierChange::Ejected(1)]
    );
    // The end of the first ejection does not end the second
    assert_eq!(
        detector.poll_changes(30 * SECOND),
        vec![OutlierChange::Unejected(2)]
    );
    assert_eq!(
        detector.poll_changes(40 * SECOND),
        vec![OutlierChange::Unejected(1)]
    );
    assert_eq!(detector.poll_changes(50 * SECOND), vec![]);
}

#[test]
fn an_endpoint_that_came_back_is_not_restored() {
    let mut detector = detector(&[1]);
    detector.apply_requests(vec![1], 0);
    detector.on_endpoint_removed(&1);
    detector.on_endpoint_added(1);
    assert_eq!(detector.poll_changes(30 * SECOND), vec![]);
}

#[test]
fn no_more_than_the_maximum_is_ejected() {
    // Ten percent of one is less than one
    let mut single = GrpcOutlierDetector::new(OutlierDetectionConfig::default());
    single.on_endpoint_added(1u64);
    assert_eq!(single.apply_requests(vec![1], 0), vec![]);

    let mut detector = GrpcOutlierDetector::new(OutlierDetectionConfig::default());
    for key in 0..20u64 {
        detector.on_endpoint_added(key);
    }
    // Two of twenty, the first that are asked for
    assert_eq!(
        detector.apply_requests(vec![5, 5, 99, 3, 4], 0),
        vec![OutlierChange::Ejected(5), OutlierChange::Ejected(3)]
    );
    assert_eq!(detector.apply_requests(vec![4], SECOND), vec![]);
    // A removal makes room, and nineteen endpoints have room for one
    detector.on_endpoint_removed(&5);
    assert_eq!(detector.apply_requests(vec![4], 2 * SECOND), vec![]);
    detector.on_endpoint_removed(&3);
    assert_eq!(
        detector.apply_requests(vec![4, 6], 3 * SECOND),
        vec![OutlierChange::Ejected(4)]
    );
    // So does the end of an ejection, from the next poll on
    assert_eq!(
        detector.apply_requests(vec![6], 33 * SECOND),
        vec![OutlierChange::Unejected(4)]
    );
    assert_eq!(
        detector.apply_requests(vec![6], 34 * SECOND),
        vec![OutlierChange::Ejected(6)]
    );
}

#[test]
fn no_ejection_lasts_longer_than_the_maximum() {
    let mut config = without_maximum();
    config.base_ejection_time = 10;
    config.max_ejection_time = 5;
    let mut detector = GrpcOutlierDetector::new(config);
    detector.on_endpoint_added(1u64);
    assert_eq!(
        detector.apply_requests(vec![1], 0),
        vec![OutlierChange::Ejected(1)]
    );
    assert_eq!(detector.poll_changes(4), vec![]);
    assert_eq!(detector.poll_changes(5), vec![OutlierChange::Unejected(1)]);
}

#[test]
fn checkers_share_the_queue_of_their_detector() {
    let mut first = detector(&[1, 2]);
    let mut second = detector(&[1, 2]);
    let mut checker = first.checker();
    assert!(checker.check(&1, 5, 5, 5));
    assert!(checker.clone().check(&2, 5, 5, 5));
    assert_eq!(second.poll_changes(0), vec![]);
    assert_eq!(
        first.poll_changes(0),
        vec![OutlierChange::Ejected(1), OutlierChange::Ejected(2)]
    );
}

#[test]
fn endpoints_are_counted_once() {
    let mut detector = detector(&[4, 4, 5]);
    assert_eq!(detector.fleet_size(), 2);
    detector.on_endpoint_removed(&7);
    assert_eq!(detector.fleet_size(), 2);
}

#[test]
fn a_failing_channel_is_ejected() {
    let mut detector = detector(&[1]);
    let mut checker = detector.checker();
    let mut channel = EndpointChannel::new(());
    for call in 1..=5u64 {
        let error = CallError::new(ErrorCause::Status(Status::internal("down")), "down");
        let outcome = checker.classify(&Err(error));
        assert_eq!(outcome, CallOutcome::Failure);
        channel.record_failure();
        let rate = channel.failure_rate();
        let requested = checker.check(
            &1,
            rate.failures,
            channel.request_volume(),
            channel.consecutive_failures(),
        );
        assert_eq!(requested, call == 5);
    }
    assert_eq!(detector.poll_changes(0), vec![OutlierChange::Ejected(1)]);
}

#[test]
fn without_outlier_detection_nothing_is_ejected() {
    let mut detector: NoOutlierDetector<u64> = NoOutlierDetector::default();
    assert_eq!(detector.fleet_size(), 0);
    detector.on_endpoint_added(1);
    assert_eq!(detector.fleet_size(), 0);
    let mut checker: EjectionChecker<u64, NoopClassifier> = detector.checker();
    assert!(!checker.check(&1, u64::MAX, u64::MAX, u64::MAX));
    assert_eq!(checker.classify(&Err::<(), ()>(())), CallOutcome::Success);
    assert_eq!(detector.poll_changes(u64::MAX), vec![]);
    detector.on_endpoint_removed(&1);
    assert_eq!(detector.fleet_size(), 0);
}
