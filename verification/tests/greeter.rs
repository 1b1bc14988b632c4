use tonic_xds::greeter::{
    exit_notice, faulty_exit_notice, FaultyGreeter, HelloReply, HelloRequest, MyGreeter,
};
use tonic_xds::status::Code;

fn request() -> HelloRequest {
    HelloRequest {
        name: "World".to_string(),
    }
}

#[test]
fn a_greeter_greets() {
    let greeter = MyGreeter {
        msg: "server1".to_string(),
    };
    assert_eq!(
        greeter.say_hello(request()),
        Ok(HelloReply {
            message: "server1: World".to_string()
        })
    );
}

#[test]
fn a_faulty_greeter_without_a_rate_always_fails() {
    let mut greeter = FaultyGreeter::new("server1", None);
    for _ in 0..3 {
        let status = greeter.say_hello(request()).unwrap_err();
        assert_eq!(status.code, Code::Unavailable);
        assert_eq!(status.message, "server is unavailable");
    }
}

#[test]
fn a_faulty_greeter_fails_its_share_of_every_hundred() {
    for (rate, expected) in [(0, 0), (1, 1), (30, 30), (100, 100), (250, 100)] {
        let mut greeter = FaultyGreeter::new("server1", Some(rate));
        // Out of step with the hundreds
        for _ in 0..17 {
            let _ = greeter.say_hello(request());
        }
        let failures = (0..100)
            .filter(|_| greeter.say_hello(request()).is_err())
            .count();
        assert_eq!(failures, expected);
    }
}

#[test]
fn the_first_requests_of_a_hundred_fail() {
    let greeter = FaultyGreeter::new("server1", Some(2));
    assert!(greeter.answer(0, request()).is_err());
    assert!(greeter.answer(1, request()).is_err());
    assert_eq!(
        greeter.answer(2, request()).unwrap().message,
        "server1: World"
    );
    assert!(greeter.answer(99, request()).is_ok());
    assert!(greeter.answer(101, request()).is_err());
}

#[test]
fn exits_are_noticed() {
    assert_eq!(exit_notice(None), "Server exited cleanly");
    assert_eq!(exit_notice(Some("reset")), "Server error: reset");
    assert_eq!(faulty_exit_notice(None), None);
    assert_eq!(
        faulty_exit_notice(Some("reset")),
        Some("Faulty server error: reset".to_string())
    );
}
