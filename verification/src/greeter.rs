//! Greeters: a service to try a channel with, and one that fails on purpose.

use crate::endpoint::one_more;
use crate::status::{Code, Status};
use vstd::prelude::*;
use vstd::string::*;

verus! {

/// A request to be greeted.
#[derive(Debug, Clone, PartialEq, Eq)]
pub struct HelloRequest {
    pub name: String,
}

/// A greeting.
#[derive(Debug, Clone, PartialEq, Eq)]
pub struct HelloReply {
    pub message: String,
}

/// The text of a greeting: who greets, and who is greeted.
pub open spec fn greeting(msg: Seq<char>, name: Seq<char>) -> Seq<char> {
    msg + ": "@ + name
}

/// Greets.
fn greet(msg: &str, name: &str) -> (reply: HelloReply)
    ensures
        reply.message@ == greeting(msg@, name@),
{
    let mut message = msg.to_string();
    message.append(": ");
    message.append(name);
    HelloReply { message }
}

/// What is said when a greeter's server exits, with an error or without.
pub fn exit_notice(error: Option<&str>) -> (notice: String)
    ensures
        notice@ == (match error {
            None => "Server exited cleanly"@,
            Some(e) => "Server error: "@ + e@,
        }),
{
    match error {
        None => "Server exited cleanly".to_string(),
        Some(e) => {
            let mut notice = "Server error: ".to_string();
            notice.append(e);
            notice
        },
    }
}

/// What is said when a faulty greeter's server exits: nothing, unless with an error.
pub fn faulty_exit_notice(error: Option<&str>) -> (notice: Option<String>)
    ensures
        match error {
            None => notice is None,
            Some(e) => notice matches Some(n) && n@ == "Faulty server error: "@ + e@,
        },
{
    match error {
        None => None,
        Some(e) => {
            let mut notice = "Faulty server error: ".to_string();
            notice.append(e);
            Some(notice)
        },
    }
}

/// A greeter that greets everyone.
pub struct MyGreeter {
    pub msg: String,
}

impl MyGreeter {
    /// Answers a request.
    pub fn say_hello(&self, req: HelloRequest) -> (reply: Result<HelloReply, Status>)
        ensures
            reply matches Ok(r) && r.message@ == greeting(self.msg@, req.name@),
    {
        Ok(greet(self.msg.as_str(), req.name.as_str()))
    }
}

/// A greeter that fails with a configurable error rate or always fails.
pub struct FaultyGreeter {
    msg: String,
    error_rate: Option<u32>,
    request_count: u64,
}

/// Whether the request with the given number fails. If there is a rate, this percentage of requests
/// fails (0-100), the first ones of every hundred; if there is none, all do.
pub open spec fn fails(error_rate: Option<u32>, count: int) -> bool {
    match error_rate {
        None => true,
        Some(rate) => count % 100 < rate,
    }
}

/// The number of requests that fail, of `n` from the given one on.
pub open spec fn failures_among(error_rate: Option<u32>, first: int, n: nat) -> nat
    decreases n,
{
    if n == 0 {
        0
    } else {
        let last: nat = if fails(error_rate, first + n - 1) {
            1
        } else {
            0
        };
        failures_among(error_rate, first, (n - 1) as nat) + last
    }
}

impl FaultyGreeter {
    /// Server identifier in responses.
    pub closed spec fn msg(&self) -> Seq<char> {
        self.msg@
    }

    /// The percentage of requests that fail, or `None` if all do.
    pub closed spec fn error_rate(&self) -> Option<u32> {
        self.error_rate
    }

    /// The number of the next request.
    pub closed spec fn request_count(&self) -> u64 {
        self.request_count
    }

    /// Whether this is the answer to the request with the given number.
    pub open spec fn answers(
        &self,
        count: u64,
        name: Seq<char>,
        reply: Result<HelloReply, Status>,
    ) -> bool {
        if fails(self.error_rate(), count as int) {
            reply matches Err(status) && status.is_plain(
                Code::Unavailable,
                "server is unavailable"@,
            )
        } else {
            reply matches Ok(r) && r.message@ == greeting(self.msg(), name)
        }
    }

    /// Creates a greeter whose first request is number zero.
    pub fn new(msg: &str, error_rate: Option<u32>) -> (greeter: Self)
        ensures
            greeter.msg() == msg@,
            greeter.error_rate() == error_rate,
            greeter.request_count() == 0,
    {
        FaultyGreeter { msg: msg.to_string(), error_rate, request_count: 0 }
    }

    /// Takes the number of the next request.
    fn next_count(&mut self) -> (count: u64)
        ensures
            count == old(self).request_count(),
            final(self).request_count() == one_more(old(self).request_count()),
            final(self).msg() == old(self).msg(),
            final(self).error_rate() == old(self).error_rate(),
    {
        let count = self.request_count;
        self.request_count = count.wrapping_add(1);
        count
    }

    /// Answers the request with the given number.
    pub fn answer(&self, count: u64, req: HelloRequest) -> (reply: Result<HelloReply, Status>)
        ensures
            self.answers(count, req.name@, reply),
    {
        let should_fail = match self.error_rate {
            None => true,  // Always fail
            Some(rate) => (count % 100) < rate as u64,
        };
        if should_fail {
            Err(Status::new(Code::Unavailable, "server is unavailable"))
        } else {
            Ok(greet(self.msg.as_str(), req.name.as_str()))
        }
    }

    /// Answers the next request.
    pub fn say_hello(&mut self, req: HelloRequest) -> (reply: Result<HelloReply, Status>)
        ensures
            old(self).answers(old(self).request_count(), req.name@, reply),
            final(self).request_count() == one_more(old(self).request_count()),
            final(self).msg() == old(self).msg(),
            final(self).error_rate() == old(self).error_rate(),
    {
        let count = self.next_count();
        self.answer(count, req)
    }
}

/// Of any hundred requests in a row, numbered without a gap, the error rate is the number that fail;
/// a rate above a hundred, or none, fails them all.
pub proof fn the_error_rate_is_a_percentage(error_rate: Option<u32>, first: int)
    requires
        first >= 0,
    ensures
        failures_among(error_rate, first, 100) == (match error_rate {
            None => 100nat,
            Some(rate) => if rate > 100 {
                100
            } else {
                rate as nat
            },
        }),
    decreases first,
{
    if first == 0 {
        lemma_failures_from_zero(error_rate, 100);
    } else {
        the_error_rate_is_a_percentage(error_rate, first - 1);
        // One request leaves the hundred and the one a hundred later enters it
        lemma_failures_split(error_rate, first - 1, 100);
        assert(failures_among(error_rate, first - 1, 101) == failures_among(
            error_rate,
            first - 1,
            100,
        ) + (if fails(error_rate, first + 99) {
            1nat
        } else {
            0
        }));
        assert((first + 99) % 100 == (first - 1) % 100);
    }
}

/// Of the first requests of a hundred, those below the rate fail.
proof fn lemma_failures_from_zero(error_rate: Option<u32>, n: nat)
    requires
        n <= 100,
    ensures
        failures_among(error_rate, 0, n) == (match error_rate {
            None => n,
            Some(rate) => if rate > n {
                n
            } else {
                rate as nat
            },
        }),
    decreases n,
{
    if n > 0 {
        lemma_failures_from_zero(error_rate, (n - 1) as nat);
        assert((n - 1) as int % 100 == n - 1);
    }
}

/// The failures among `n + 1` requests are the first, if it fails, and those among the others.
proof fn lemma_failures_split(error_rate: Option<u32>, first: int, n: nat)
    ensures
        failures_among(error_rate, first, n + 1) == (if fails(error_rate, first) {
            1nat
        } else {
            0
        }) + failures_among(error_rate, first + 1, n),
    decreases n,
{
    if n == 0 {
        reveal_with_fuel(failures_among, 2);
    } else {
        lemma_failures_split(error_rate, first, (n - 1) as nat);
        assert(first + (n + 1) - 1 == (first + 1) + n - 1);
    }
}

/// A greeter answers everyone, with who greets and who is greeted.
pub proof fn everyone_is_greeted(
    greeter: MyGreeter,
    req: HelloRequest,
    reply: Result<HelloReply, Status>,
)
    requires
        call_ensures(MyGreeter::say_hello, (&greeter, req), reply),
    ensures
        reply is Ok,
        reply->Ok_0.message@ == greeter.msg@ + ": "@ + req.name@,
{
}

/// A faulty greeter fails a request by the request's place in its hundred: the first ones, as many as the
/// rate says, fail, and the others are greeted. Without a rate all fail. A request fails as unavailable.
pub proof fn the_first_of_every_hundred_fail(
    msg: &str,
    error_rate: Option<u32>,
    greeter: FaultyGreeter,
    hundreds: nat,
    place: nat,
    count: u64,
    req: HelloRequest,
    reply: Result<HelloReply, Status>,
)
    requires
        call_ensures(FaultyGreeter::new, (msg, error_rate), greeter),
        count == 100 * hundreds + place,
        place < 100,
        call_ensures(FaultyGreeter::answer, (&greeter, count, req), reply),
    ensures
        reply is Err <==> error_rate is None || place < error_rate->0,
        reply matches Err(status) ==> status.code == Code::Unavailable && status.message@
            == "server is unavailable"@,
        reply matches Ok(r) ==> r.message@ == msg@ + ": "@ + req.name@,
{
    assert(count % 100 == place) by (nonlinear_arith)
        requires
            count == 100 * hundreds + place,
            place < 100,
    ;
}

/// Requests are numbered in the order in which they come, from zero on: each answer is that to the
/// request with the next number.
pub proof fn requests_are_answered_in_turn(
    req: HelloRequest,
    reply: Result<HelloReply, Status>,
)
    ensures
        forall|greeter: &mut FaultyGreeter| #[trigger]
            call_ensures(FaultyGreeter::say_hello, (greeter, req), reply) ==> {
                let count = (*greeter).request_count();
                &&& (*final(greeter)).request_count() == (count + 1) % 0x1_0000_0000_0000_0000
                &&& (*final(greeter)).error_rate() == (*greeter).error_rate()
                &&& (*final(greeter)).msg() == (*greeter).msg()
                &&& reply is Err <==> (*greeter).error_rate() is None || count % 100 < (
                *greeter).error_rate()->0
                &&& reply matches Ok(r) ==> r.message@ == (*greeter).msg() + ": "@ + req.name@
                &&& reply matches Err(status) ==> status.code == Code::Unavailable
                    && status.message@ == "server is unavailable"@
            },
{
}

/// Clean exits are told from errors.
pub proof fn exits_are_told_apart(
    error: &str,
    clean: String,
    failed: String,
    faulty_clean: Option<String>,
    faulty_failed: Option<String>,
)
    requires
        call_ensures(exit_notice, (None,), clean),
        call_ensures(exit_notice, (Some(error),), failed),
        call_ensures(faulty_exit_notice, (None,), faulty_clean),
        call_ensures(faulty_exit_notice, (Some(error),), faulty_failed),
    ensures
        clean@ == "Server exited cleanly"@,
        failed@ == "Server error: "@ + error@,
        faulty_clean is None,
        faulty_failed is Some && faulty_failed->0@ == "Faulty server error: "@ + error@,
{
}

/// A faulty greeter starts with request number zero, and has the name and the rate that it was given.
pub proof fn a_faulty_greeter_starts_at_zero(
    msg: &str,
    error_rate: Option<u32>,
    greeter: FaultyGreeter,
)
    requires
        call_ensures(FaultyGreeter::new, (msg, error_rate), greeter),
    ensures
        greeter.request_count() == 0,
        greeter.msg() == msg@,
        greeter.error_rate() == error_rate,
{
}

}
