use tonic_xds::endpoint::{
    server_uri, EndpointAddress, EndpointChannel, EndpointHost, FailureRate, Load,
    OutlierDetectionStats, SocketAddress,
};

#[test]
fn socket_addresses_become_endpoint_addresses() {
    let v4 = EndpointAddress::from(SocketAddress::V4 {
        ip: 0x7f00_0001,
        port: 8080,
    });
    assert_eq!(v4.host, EndpointHost::Ipv4(0x7f00_0001));
    assert_eq!(v4.port, 8080);

    let v6 = EndpointAddress::from(SocketAddress::V6 {
        ip: 1,
        port: 443,
        flowinfo: 5,
        scope_id: 6,
    });
    assert_eq!(
        v6,
        EndpointAddress {
            host: EndpointHost::Ipv6(1),
            port: 443
        }
    );
}

#[test]
fn keys_tell_addresses_apart() {
    let addresses = [
        (EndpointHost::Ipv4(1), 80),
        (EndpointHost::Ipv4(2), 80),
        (EndpointHost::Ipv4(1), 81),
        (EndpointHost::Ipv6(1), 80),
        (EndpointHost::Ipv6(0), 80),
        (EndpointHost::Ipv4(0), 80),
        (EndpointHost::Hostname("".to_string()), 80),
        (EndpointHost::Hostname("a".to_string()), 80),
        (EndpointHost::Hostname("b".to_string()), 80),
    ];
    for (i, (host, port)) in addresses.iter().enumerate() {
        let a = EndpointAddress {
            host: host.clone(),
            port: *port,
        };
        for (j, (host, port)) in addresses.iter().enumerate() {
            let b = EndpointAddress {
                host: host.clone(),
                port: *port,
            };
            assert_eq!(a.key() == b.key(), i == j);
        }
    }
}

#[test]
fn the_load_is_the_number_of_calls_in_flight() {
    let mut channel = EndpointChannel::new("transport");
    assert_eq!(*channel.inner(), "transport");
    assert_eq!(channel.load(), 0);
    channel.call_started();
    channel.call_started();
    assert_eq!(channel.load(), 2);
    channel.call_finished();
    channel.call_started();
    assert_eq!(channel.load(), 2);
    channel.call_finished();
    channel.call_finished();
    assert_eq!(channel.load(), 0);
}

#[test]
fn a_counter_wraps_around() {
    let mut channel = EndpointChannel::new(());
    channel.call_finished();
    assert_eq!(channel.load(), u64::MAX);
    channel.call_started();
    assert_eq!(channel.load(), 0);
}

#[test]
fn outcomes_are_counted() {
    let mut channel = EndpointChannel::new(());
    assert!(channel.is_countable());
    assert_eq!(channel.failure_rate(), FailureRate { failures: 0, total: 0 });
    channel.record_failure();
    channel.record_failure();
    channel.record_success();
    assert_eq!(channel.consecutive_failures(), 0);
    channel.record_failure();
    assert_eq!(channel.request_volume(), 4);
    assert_eq!(channel.consecutive_failures(), 1);
    assert_eq!(channel.failure_rate(), FailureRate { failures: 3, total: 4 });
    // Outcomes are no load
    assert_eq!(channel.load(), 0);

    channel.call_started();
    channel.reset_stats();
    assert_eq!(channel.request_volume(), 0);
    assert_eq!(channel.consecutive_failures(), 0);
    assert_eq!(channel.failure_rate(), FailureRate { failures: 0, total: 0 });
    assert_eq!(channel.load(), 1);
}

#[test]
fn servers_have_uris() {
    assert_eq!(server_uri(false, "127.0.0.1:80"), "http://127.0.0.1:80");
    assert_eq!(server_uri(true, "[::1]:443"), "https://[::1]:443");
}
