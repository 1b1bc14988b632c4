use std::future::Future;
use std::time::Duration;
use tonic_xds::channel_state::{apply, ChannelState, ChannelStateTracker};

fn block_on<F: Future>(future: F) -> F::Output {
    tokio::runtime::Builder::new_current_thread()
        .enable_time()
        .build()
        .unwrap()
        .block_on(future)
}

#[test]
fn test_state_display() {
    assert_eq!(ChannelState::Idle.to_string(), "IDLE");
    assert_eq!(ChannelState::Connecting.to_string(), "CONNECTING");
    assert_eq!(ChannelState::Connected.to_string(), "CONNECTED");
}

#[test]
fn test_state_tracker_basic() {
    block_on(async {
        let (mut tracker, mut rx) = ChannelStateTracker::new(ChannelState::Idle);

        assert_eq!(*rx.borrow(), ChannelState::Idle);

        tracker.set(ChannelState::Connecting);
        assert!(rx.changed().await.is_ok());
        assert_eq!(*rx.borrow(), ChannelState::Connecting);

        tracker.set(ChannelState::Connected);
        assert!(rx.changed().await.is_ok());
        assert_eq!(*rx.borrow(), ChannelState::Connected);
    });
}

#[test]
fn test_state_tracker_no_duplicate_notification() {
    block_on(async {
        let (mut tracker, mut rx) = ChannelStateTracker::new(ChannelState::Idle);

        tracker.set(ChannelState::Connecting);
        assert!(rx.changed().await.is_ok());

        // Setting same state should not trigger notification
        tracker.set(ChannelState::Connecting);

        // Use timeout to verify no change notification
        let result = tokio::time::timeout(Duration::from_millis(10), rx.changed()).await;
        assert!(result.is_err()); // Timeout means no change
    });
}

#[test]
fn test_multiple_receivers() {
    block_on(async {
        let (mut tracker, rx1) = ChannelStateTracker::new(ChannelState::Idle);
        let mut rx2 = rx1.clone();
        let mut rx1 = rx1;

        tracker.set(ChannelState::Connected);

        // Both receivers should see the change
        assert!(rx1.changed().await.is_ok());
        assert!(rx2.changed().await.is_ok());
        assert_eq!(*rx1.borrow(), ChannelState::Connected);
        assert_eq!(*rx2.borrow(), ChannelState::Connected);
    });
}

#[test]
fn the_current_state_is_the_last_one_set() {
    let (mut tracker, mut rx) = ChannelStateTracker::new(ChannelState::Connecting);
    assert_eq!(tracker.get(), ChannelState::Connecting);
    assert!(!rx.has_changed().unwrap());

    tracker.set(ChannelState::Connecting);
    assert!(!rx.has_changed().unwrap());

    tracker.set(ChannelState::Connected);
    assert!(rx.has_changed().unwrap());
    assert_eq!(*rx.borrow_and_update(), ChannelState::Connected);

    tracker.set(ChannelState::Idle);
    assert!(rx.has_changed().unwrap());
    assert_eq!(tracker.get(), ChannelState::Idle);
}

#[test]
fn a_state_applied_twice_changes_once() {
    let mut current = ChannelState::Idle;
    assert!(apply(&mut current, ChannelState::Connected));
    assert_eq!(current, ChannelState::Connected);
    assert!(!apply(&mut current, ChannelState::Connected));
    assert_eq!(current, ChannelState::Connected);
}
