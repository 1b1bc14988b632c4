use tonic_xds::endpoint::{EndpointAddress, EndpointHost};
use tonic_xds::lb::discover::{EndpointUpdate, Polled};
use tonic_xds::loadbalance::errors::LbError;
use tonic_xds::loadbalance::loadbalancer::{Connected, LbAction, LbFuture, LoadBalancer};
use tonic_xds::loadbalance::p2c::{choose_less_loaded, sample_floyd2, P2cPicker};
use tonic_xds::status::{CallError, Code, ErrorCause, Status};

type Discovered = Result<EndpointUpdate<EndpointAddress, ()>, &'static str>;

fn addr(last: u32) -> EndpointAddress {
    EndpointAddress {
        host: EndpointHost::Ipv4(0x0a00_0000 + last),
        port: 80,
    }
}

fn insert(last: u32) -> Discovered {
    Ok(EndpointUpdate::Insert(addr(last), ()))
}

fn remove(last: u32) -> Discovered {
    Ok(EndpointUpdate::Remove(addr(last)))
}

fn connected(last: u32, attempt: u64, channel: u64) -> Connected {
    Connected {
        address: addr(last),
        attempt,
        channel,
    }
}

fn balancer() -> LoadBalancer<P2cPicker> {
    LoadBalancer::new(P2cPicker)
}

#[test]
fn endpoints_are_connected_to_and_become_ready() {
    let mut lb = balancer();
    assert_eq!(
        lb.poll_discover(vec![insert(1), insert(2)]),
        vec![
            LbAction::Connect(addr(1), 0),
            LbAction::Connect(addr(2), 1)
        ]
    );
    assert_eq!((lb.connecting_len(), lb.ready_len()), (2, 0));
    assert_eq!(lb.call(&(), |_| 0), Err(LbError::Unavailable));

    assert_eq!(lb.poll_connecting(vec![connected(2, 1, 20)]), vec![]);
    assert_eq!((lb.connecting_len(), lb.ready_len()), (1, 1));
    assert_eq!(lb.call(&(), |_| 5), Ok(20));
}

#[test]
fn discovery_errors_are_passed_over() {
    let mut lb = balancer();
    assert_eq!(
        lb.poll_discover(vec![Err("broken"), insert(1), Err("again")]),
        vec![LbAction::Connect(addr(1), 0)]
    );
    assert_eq!(lb.connecting_len(), 1);
}

#[test]
fn a_removed_endpoint_is_given_up() {
    let mut lb = balancer();
    lb.poll_discover(vec![insert(1), insert(2)]);
    lb.poll_connecting(vec![connected(1, 0, 10)]);
    assert_eq!(
        lb.poll_discover(vec![remove(1), remove(2), remove(3)]),
        vec![LbAction::Release(10), LbAction::Cancel(1)]
    );
    assert_eq!((lb.connecting_len(), lb.ready_len()), (0, 0));
    // The attempt completes all the same
    assert_eq!(
        lb.poll_connecting(vec![connected(2, 1, 20)]),
        vec![LbAction::Release(20)]
    );
    assert_eq!(lb.call(&(), |_| 0), Err(LbError::Unavailable));
}

#[test]
fn an_endpoint_that_is_inserted_again_is_connected_to_anew() {
    let mut lb = balancer();
    lb.poll_discover(vec![insert(1)]);
    lb.poll_connecting(vec![connected(1, 0, 10)]);
    assert_eq!(
        lb.poll_discover(vec![insert(1), insert(1)]),
        vec![
            LbAction::Release(10),
            LbAction::Connect(addr(1), 1),
            LbAction::Cancel(1),
            LbAction::Connect(addr(1), 2),
        ]
    );
    assert_eq!((lb.connecting_len(), lb.ready_len()), (1, 0));
    // The attempt that was given up does not count
    assert_eq!(
        lb.poll_connecting(vec![connected(1, 1, 11), connected(1, 2, 12)]),
        vec![LbAction::Release(11)]
    );
    assert_eq!(lb.call(&(), |_| 0), Ok(12));
    // Nor does an attempt that has completed
    assert_eq!(
        lb.poll_connecting(vec![connected(1, 2, 13)]),
        vec![LbAction::Release(13)]
    );
    assert_eq!(lb.call(&(), |_| 0), Ok(12));
}

#[test]
fn discovery_comes_before_completed_attempts() {
    let mut lb = balancer();
    lb.poll_discover(vec![insert(1)]);
    assert_eq!(
        lb.poll_ready(vec![remove(1), insert(2)], vec![connected(1, 0, 10)]),
        vec![
            LbAction::Cancel(0),
            LbAction::Connect(addr(2), 1),
            LbAction::Release(10)
        ]
    );
    assert_eq!((lb.connecting_len(), lb.ready_len()), (1, 0));
    assert_eq!(
        lb.poll_ready(Vec::<Discovered>::new(), vec![connected(2, 1, 20)]),
        vec![]
    );
    assert_eq!(lb.call(&(), |_| 0), Ok(20));
}

#[test]
fn what_discovery_yields_is_taken_in_until_it_has_nothing() {
    let mut lb = balancer();
    let mut actions = vec![];
    assert!(lb.on_discovered(Polled::Update(insert(1)), &mut actions));
    assert!(lb.on_discovered(Polled::Update(Err("broken")), &mut actions));
    assert!(lb.on_discovered(Polled::Update(insert(1)), &mut actions));
    assert!(!lb.on_discovered::<()>(Polled::Pending, &mut actions));
    assert!(!lb.on_discovered::<()>(Polled::Exhausted, &mut actions));
    assert_eq!(
        actions,
        vec![
            LbAction::Connect(addr(1), 0),
            LbAction::Cancel(0),
            LbAction::Connect(addr(1), 1),
        ]
    );
    assert_eq!((lb.connecting_len(), lb.ready_len()), (1, 0));
}

#[test]
fn the_less_loaded_of_two_takes_the_request() {
    let mut lb = balancer();
    lb.poll_discover(vec![insert(1), insert(2)]);
    lb.poll_connecting(vec![connected(1, 0, 10), connected(2, 1, 20)]);
    for _ in 0..50 {
        assert_eq!(lb.call(&(), |channel| 100 - channel), Ok(20));
        assert_eq!(lb.call(&(), |channel| channel), Ok(10));
    }
}

#[test]
fn all_but_the_most_loaded_take_requests() {
    let mut lb = balancer();
    lb.poll_discover(vec![insert(1), insert(2), insert(3)]);
    lb.poll_connecting(vec![
        connected(1, 0, 10),
        connected(2, 1, 20),
        connected(3, 2, 30),
    ]);
    // The last endpoint moves into the place of a removed one
    lb.poll_discover(vec![insert(4)]);
    lb.poll_connecting(vec![connected(4, 3, 40)]);
    lb.poll_discover(vec![remove(1)]);
    let mut counts = [0; 5];
    for _ in 0..1000 {
        let channel = lb.call(&(), |channel| channel / 30).unwrap();
        counts[channel as usize / 10] += 1;
    }
    assert_eq!(counts[0], 0);
    assert_eq!(counts[1], 0);
    assert!(counts[2] > 0);
    assert!(counts[3] > 0);
    assert!(counts[4] > 0);
}

#[test]
fn the_choice_of_two_goes_by_load() {
    assert_eq!(choose_less_loaded(4, 1, 7, 2), 4);
    assert_eq!(choose_less_loaded(4, 2, 7, 2), 4);
    assert_eq!(choose_less_loaded(4, 3, 7, 2), 7);
    // Loads of any type, also where they do not compare
    assert_eq!(choose_less_loaded(4, 0.5, 7, 0.25), 7);
    assert_eq!(choose_less_loaded(4, f64::NAN, 7, 0.25), 7);
    for _ in 0..200 {
        let [a, b] = sample_floyd2(3);
        assert!(a < 3 && b < 3 && a != b);
    }
    let [a, b] = sample_floyd2(2);
    assert_eq!(a + b, 1);
}

#[test]
fn an_error_is_given_out_once() {
    let (mut future, channel) = LbFuture::new(Err(LbError::Unavailable));
    assert_eq!(channel, None);
    assert_eq!(future.poll::<u8>(None), Some(Err(LbError::Unavailable)));
    assert_eq!(
        future.poll::<u8>(None),
        Some(Err(LbError::Precondition("LbFuture::Error polled twice")))
    );
}

#[test]
fn the_answer_of_the_channel_is_passed_on() {
    let (mut future, channel) = LbFuture::new(Ok(3));
    assert_eq!(channel, Some(3));
    assert_eq!(future.poll::<u8>(None), None);
    assert_eq!(future.poll(Some(Ok(5u8))), Some(Ok(5)));
    let error = CallError::new(ErrorCause::Connect, "refused");
    assert_eq!(
        future.poll::<u8>(Some(Err(error.clone()))),
        Some(Err(LbError::LbChannelError(error)))
    );
}

#[test]
fn errors_become_texts_and_statuses() {
    let not_found = CallError::new(
        ErrorCause::Status(Status::new(Code::NotFound, "no such thing")),
        "status: no such thing",
    );
    let refused = CallError::new(ErrorCause::Connect, "refused");
    let cases = [
        (
            LbError::Unavailable,
            "no ready endpoints available",
            Code::Unavailable,
            "no ready endpoints available",
        ),
        (
            LbError::LbChannelNotReady,
            "lb channel not ready",
            Code::Unavailable,
            "lb channel not ready",
        ),
        (
            LbError::Precondition("picker returned invalid index"),
            "internal error: picker returned invalid index",
            Code::Internal,
            "picker returned invalid index",
        ),
        (
            LbError::LbChannelError(not_found),
            "lb channel error: status: no such thing",
            Code::NotFound,
            "no such thing",
        ),
        (
            LbError::LbChannelError(refused),
            "lb channel error: refused",
            Code::Unknown,
            "lb channel error: refused",
        ),
    ];
    for (error, text, code, message) in cases {
        assert_eq!(error.to_string(), text);
        let status = Status::from(error);
        assert_eq!(status.code, code);
        assert_eq!(status.message, message);
    }
}

#[test]
fn a_status_of_the_channel_is_passed_on_whole() {
    let mut status = Status::new(Code::Aborted, "try again");
    assert!(status.details.is_empty() && status.metadata.is_empty());
    status.details = vec![1, 2, 3];
    status.metadata = vec![("retry-after".to_string(), b"5".to_vec())];
    let error = CallError::new(ErrorCause::Status(status.clone()), "aborted");
    assert_eq!(Status::from(LbError::LbChannelError(error)), status);
}
