//! Power-of-two-choices (P2C) channel picker.

use crate::endpoint::AddressKey;
use crate::ext::maps::{indexed_at, indexed_entries, indexed_len, KeyView};
use crate::ext::random::fast_random_below;
use crate::metric::{always_lower, at_most, integers_compare_by_value};
use crate::sampling::{floyd2, floyd_pair};
use indexmap::IndexMap;
use vstd::prelude::*;

verus! {

/// Which readings of the load of a channel, given by its handle, are possible.
pub type LoadReadings<M> = spec_fn(u64, M) -> bool;

/// The readings that a function gives.
pub open spec fn load_readings_of<M, F: Fn(u64) -> M>(load: F) -> LoadReadings<M> {
    |channel: u64, l: M| call_ensures(load, (channel,), l)
}

/// Whether the load of every ready channel can be read by the function.
pub open spec fn can_read<M, F: Fn(u64) -> M>(load: F, ready: Seq<(KeyView, u64)>) -> bool {
    forall|i: int| 0 <= i < ready.len() ==> call_requires(load, ((#[trigger] ready[i]).1,))
}

/// Trait for selecting a ready channel to handle a request.
pub trait ChannelPicker<M, Req> {
    /// Whether the picker's way of picking allows the choice for the request.
    spec fn allows(
        &self,
        req: &Req,
        ready: Seq<(KeyView, u64)>,
        readings: LoadReadings<M>,
        picked: Option<usize>,
    ) -> bool;

    /// Pick the index of an endpoint from the ready set to handle the given request. The load of a
    /// ready channel can be read by its handle.
    /// Returns `None` if no channel is suitable.
    fn pick<F: Fn(u64) -> M>(&self, req: &Req, ready: &IndexMap<AddressKey, u64>, load: F) -> (
        picked: Option<usize>)
        requires
            can_read(load, indexed_entries(*ready)),
        ensures
            self.allows(req, indexed_entries(*ready), load_readings_of(load), picked),
    ;
}

/// Whether the index is chosen of the two, by their loads: that of the lower load, the first where
/// the loads are equal.
pub open spec fn less_loaded<M: PartialOrd>(
    a: usize,
    load_a: M,
    b: usize,
    load_b: M,
    picked: usize,
) -> bool {
    exists|first: bool| #[trigger]
        at_most(load_a, load_b, first) && picked == (if first {
            a
        } else {
            b
        })
}

/// Whether `picked` is the less loaded of the two channels, by readings of their loads.
pub open spec fn less_loaded_of_two<M: PartialOrd>(
    ready: Seq<(KeyView, u64)>,
    readings: LoadReadings<M>,
    a: usize,
    b: usize,
    picked: Option<usize>,
) -> bool {
    exists|load_a: M, load_b: M|
        #![trigger readings(ready[a as int].1, load_a), readings(ready[b as int].1, load_b)]
        readings(ready[a as int].1, load_a) && readings(ready[b as int].1, load_b) && picked is Some
            && less_loaded(a, load_a, b, load_b, picked->0)
}

/// Whether the process-wide generator, asked for a number below `len`, gave the number.
pub closed spec fn fast_draws(len: usize, number: usize) -> bool {
    call_ensures(fast_random_below, (len,), number)
}

/// Whether the process-wide generator gave the two positions: they are Floyd's sample out of a number
/// drawn below `length - 1` and one drawn below `length`.
pub open spec fn floyd_drawn(length: usize, first: usize, second: usize) -> bool {
    &&& length >= 2
    &&& exists|a: usize, b: usize|
        #![trigger fast_draws((length - 1) as usize, a), fast_draws(length, b)]
        fast_draws((length - 1) as usize, a) && fast_draws(length, b) && (
            first as nat,
            second as nat,
        ) == floyd_pair(length as nat, a as nat, b as nat)
}

/// Whether `picked` is a choice that two random channels allow: none where none is ready, the only
/// one where one is, else the less loaded of two that were drawn from all.
pub open spec fn p2c_choice<M: PartialOrd>(
    ready: Seq<(KeyView, u64)>,
    readings: LoadReadings<M>,
    picked: Option<usize>,
) -> bool {
    if ready.len() == 0 {
        picked is None
    } else if ready.len() == 1 {
        picked == Some(0usize)
    } else {
        exists|a: usize, b: usize|
            a < ready.len() && b < ready.len() && a != b && floyd_drawn(ready.len() as usize, a, b)
                && #[trigger] less_loaded_of_two(ready, readings, a, b, picked)
    }
}

/// Chooses one of two indices by their loads.
pub fn choose_less_loaded<M: PartialOrd>(a: usize, load_a: M, b: usize, load_b: M) -> (picked: usize)
    ensures
        less_loaded(a, load_a, b, load_b, picked),
{
    let first = load_a <= load_b;
    assert(at_most(load_a, load_b, first));
    if first {
        a
    } else {
        b
    }
}

/// Pick two distinct random indices from `[0, length)` using Floyd's algorithm.
pub fn sample_floyd2(length: usize) -> (pair: [usize; 2])
    requires
        length >= 2,
    ensures
        pair@[0] < length,
        pair@[1] < length,
        pair@[0] != pair@[1],
        floyd_drawn(length, pair@[0], pair@[1]),
{
    let a = fast_random_below(length - 1);
    let b = fast_random_below(length);
    assert(fast_draws((length - 1) as usize, a));
    assert(fast_draws(length, b));
    floyd2(length, a, b)
}

/// Picks the least-loaded of two randomly chosen endpoints.
#[derive(Debug, Clone, Copy)]
pub struct P2cPicker;

impl<M: PartialOrd, Req> ChannelPicker<M, Req> for P2cPicker {
    open spec fn allows(
        &self,
        req: &Req,
        ready: Seq<(KeyView, u64)>,
        readings: LoadReadings<M>,
        picked: Option<usize>,
    ) -> bool {
        p2c_choice(ready, readings, picked)
    }

    fn pick<F: Fn(u64) -> M>(&self, _req: &Req, ready: &IndexMap<AddressKey, u64>, load: F) -> (
        picked: Option<usize>) {
        let len = indexed_len(ready);
        if len == 0 {
            return None;
        }
        if len == 1 {
            return Some(0);
        }
        let pair = sample_floyd2(len);
        let a = pair[0];
        let b = pair[1];
        match (indexed_at(ready, a), indexed_at(ready, b)) {
            (Some(channel_a), Some(channel_b)) => {
                let load_a = load(channel_a);
                let load_b = load(channel_b);
                let ghost read_a = load_a;
                let ghost read_b = load_b;
                let picked = choose_less_loaded(a, load_a, b, load_b);
                proof {
                    let readings = load_readings_of(load);
                    assert(readings(channel_a, read_a) && readings(channel_b, read_b));
                    assert(less_loaded_of_two(
                        indexed_entries(*ready),
                        readings,
                        a,
                        b,
                        Some(picked),
                    ));
                }
                Some(picked)
            },
            _ => None,
        }
    }
}

/// The picker finds a channel exactly where one is ready, and its index is that of one.
pub proof fn a_ready_channel_is_picked<M: PartialOrd>(
    ready: Seq<(KeyView, u64)>,
    readings: LoadReadings<M>,
    picked: Option<usize>,
)
    requires
        p2c_choice(ready, readings, picked),
    ensures
        picked is Some <==> ready.len() > 0,
        picked matches Some(i) ==> i < ready.len(),
{
    if ready.len() >= 2 {
        let (a, b) = choose|a: usize, b: usize|
            a < ready.len() && b < ready.len() && a != b && floyd_drawn(ready.len() as usize, a, b)
                && #[trigger] less_loaded_of_two(ready, readings, a, b, picked);
        assert(less_loaded_of_two(ready, readings, a, b, picked));
    }
}

/// Of exactly two channels, the one whose load always reads lower is picked.
pub proof fn of_two_channels_the_less_loaded_is_picked<M: PartialOrd>(
    ready: Seq<(KeyView, u64)>,
    readings: LoadReadings<M>,
    low: usize,
    high: usize,
    picked: Option<usize>,
)
    requires
        ready.len() == 2,
        (low == 0 && high == 1) || (low == 1 && high == 0),
        forall|x: M, y: M|
            #![trigger readings(ready[low as int].1, x), readings(ready[high as int].1, y)]
            readings(ready[low as int].1, x) && readings(ready[high as int].1, y) ==> always_lower(
                x,
                y,
            ),
        p2c_choice(ready, readings, picked),
    ensures
        picked == Some(low),
{
    let (a, b) = choose|a: usize, b: usize|
        a < ready.len() && b < ready.len() && a != b && floyd_drawn(ready.len() as usize, a, b)
            && #[trigger] less_loaded_of_two(ready, readings, a, b, picked);
    assert(less_loaded_of_two(ready, readings, a, b, picked));
}

/// Of however many channels, two at least, one whose load always reads higher than that of every other
/// is never picked; another is.
pub proof fn the_most_loaded_channel_is_never_picked<M: PartialOrd>(
    ready: Seq<(KeyView, u64)>,
    readings: LoadReadings<M>,
    high: usize,
    picked: Option<usize>,
)
    requires
        ready.len() >= 2,
        high < ready.len(),
        forall|i: int, x: M, y: M|
            #![trigger readings(ready[i].1, x), readings(ready[high as int].1, y)]
            0 <= i < ready.len() && i != high && readings(ready[i].1, x) && readings(
                ready[high as int].1,
                y,
            ) ==> always_lower(x, y),
        p2c_choice(ready, readings, picked),
    ensures
        picked is Some,
        picked->0 < ready.len(),
        picked->0 != high,
{
    let (a, b) = choose|a: usize, b: usize|
        a < ready.len() && b < ready.len() && a != b && floyd_drawn(ready.len() as usize, a, b)
            && #[trigger] less_loaded_of_two(ready, readings, a, b, picked);
    assert(less_loaded_of_two(ready, readings, a, b, picked));
    let (load_a, load_b) = choose|load_a: M, load_b: M|
        #![trigger readings(ready[a as int].1, load_a), readings(ready[b as int].1, load_b)]
        readings(ready[a as int].1, load_a) && readings(ready[b as int].1, load_b) && picked is Some
            && less_loaded(a, load_a, b, load_b, picked->0);
    if a == high {
        assert(always_lower(load_b, load_a));
    }
    if b == high {
        assert(always_lower(load_a, load_b));
    }
}

/// Of the two loads the lower decides, the first where they are equal.
pub proof fn the_lower_load_is_chosen(a: usize, load_a: u64, b: usize, load_b: u64, picked: usize)
    requires
        call_ensures(choose_less_loaded::<u64>, (a, load_a, b, load_b), picked),
    ensures
        load_a <= load_b ==> picked == a,
        load_a > load_b ==> picked == b,
{
    integers_compare_by_value(load_a, load_b);
}

/// Two channels or more are picked among by drawing two and taking the one of the lower load. Where
/// each channel has a load that every reading gives, what is picked is one of two distinct channels that
/// were drawn, and its load is no higher than that of the other; where it is the second, its load is
/// lower.
pub proof fn the_less_loaded_of_the_two_drawn_is_picked<Req, F: Fn(u64) -> u64>(
    picker: P2cPicker,
    req: Req,
    map: IndexMap<AddressKey, u64>,
    load: F,
    loads: spec_fn(u64) -> u64,
    picked: Option<usize>,
)
    requires
        call_ensures(
            <P2cPicker as ChannelPicker<u64, Req>>::pick::<F>,
            (&picker, &req, &map, load),
            picked,
        ),
        indexed_entries(map).len() >= 2,
        forall|channel: u64, l: u64| #[trigger]
            call_ensures(load, (channel,), l) ==> l == loads(channel),
    ensures
        exists|a: usize, b: usize| #[trigger]
            floyd_drawn(indexed_entries(map).len() as usize, a, b) && {
                let load_a = loads(indexed_entries(map)[a as int].1);
                let load_b = loads(indexed_entries(map)[b as int].1);
                &&& a < indexed_entries(map).len()
                &&& b < indexed_entries(map).len()
                &&& a != b
                &&& load_a <= load_b ==> picked == Some(a)
                &&& load_a > load_b ==> picked == Some(b)
            },
{
    let ready = indexed_entries(map);
    let readings = load_readings_of(load);
    assert(p2c_choice(ready, readings, picked));
    let (a, b) = choose|a: usize, b: usize|
        a < ready.len() && b < ready.len() && a != b && floyd_drawn(ready.len() as usize, a, b)
            && #[trigger] less_loaded_of_two(ready, readings, a, b, picked);
    assert(less_loaded_of_two(ready, readings, a, b, picked));
    let (load_a, load_b) = choose|load_a: u64, load_b: u64|
        #![trigger readings(ready[a as int].1, load_a), readings(ready[b as int].1, load_b)]
        readings(ready[a as int].1, load_a) && readings(ready[b as int].1, load_b) && picked is Some
            && less_loaded(a, load_a, b, load_b, picked->0);
    integers_compare_by_value(load_a, load_b);
}

/// Whichever two distinct channels are drawn, the one of the lower load is picked: every pair that can
/// be drawn is a choice that the picker allows.
pub proof fn any_pair_that_is_drawn_can_be_picked_from(
    ready: Seq<(KeyView, u64)>,
    readings: LoadReadings<u64>,
    a: usize,
    load_a: u64,
    b: usize,
    load_b: u64,
    picked: usize,
)
    requires
        2 <= ready.len() <= usize::MAX,
        a < ready.len(),
        b < ready.len(),
        a != b,
        floyd_drawn(ready.len() as usize, a, b),
        readings(ready[a as int].1, load_a),
        readings(ready[b as int].1, load_b),
        call_ensures(choose_less_loaded::<u64>, (a, load_a, b, load_b), picked),
    ensures
        p2c_choice(ready, readings, Some(picked)),
{
    assert(less_loaded_of_two(ready, readings, a, b, Some(picked)));
}

/// The most loaded of however many channels takes no request, where another is ready.
pub proof fn a_request_avoids_the_most_loaded_channel<Req, F: Fn(u64) -> u64>(
    picker: P2cPicker,
    req: Req,
    map: IndexMap<AddressKey, u64>,
    load: F,
    loads: spec_fn(u64) -> u64,
    high: usize,
    picked: Option<usize>,
)
    requires
        call_ensures(
            <P2cPicker as ChannelPicker<u64, Req>>::pick::<F>,
            (&picker, &req, &map, load),
            picked,
        ),
        indexed_entries(map).len() >= 2,
        high < indexed_entries(map).len(),
        forall|channel: u64, l: u64| #[trigger]
            call_ensures(load, (channel,), l) ==> l == loads(channel),
        forall|i: int|
            0 <= i < indexed_entries(map).len() && i != high ==> loads(
                (#[trigger] indexed_entries(map)[i]).1,
            ) < loads(indexed_entries(map)[high as int].1),
    ensures
        picked is Some,
        picked->0 < indexed_entries(map).len(),
        picked->0 != high,
{
    the_less_loaded_of_the_two_drawn_is_picked(picker, req, map, load, loads, picked);
}

/// Where no channel is ready none is picked; where one is, it is, whatever its load.
pub proof fn few_channels_leave_no_choice<M: PartialOrd, Req, F: Fn(u64) -> M>(
    picker: P2cPicker,
    req: Req,
    map: IndexMap<AddressKey, u64>,
    load: F,
    picked: Option<usize>,
)
    requires
        call_ensures(
            <P2cPicker as ChannelPicker<M, Req>>::pick::<F>,
            (&picker, &req, &map, load),
            picked,
        ),
        indexed_entries(map).len() <= 1,
    ensures
        indexed_entries(map).len() == 0 ==> picked is None,
        indexed_entries(map).len() == 1 ==> picked == Some(0usize),
{
}

/// The two channels are drawn by Floyd's algorithm: a number below `length - 1` and one below `length`
/// are asked for, the second is the second position, and the first is the first unless both are equal,
/// where it is the last position.
pub(crate) proof fn two_channels_are_drawn_at_random(length: usize, pair: [usize; 2])
    requires
        length >= 2,
        call_ensures(sample_floyd2, (length,), pair),
    ensures
        exists|a: usize, b: usize|
            #![trigger call_ensures(fast_random_below, ((length - 1) as usize,), a), call_ensures(
                fast_random_below,
                (length,),
                b,
            )]
            {
                &&& call_ensures(fast_random_below, ((length - 1) as usize,), a)
                &&& call_ensures(fast_random_below, (length,), b)
                &&& pair@[1] == b
                &&& a != b ==> pair@[0] == a
                &&& a == b ==> pair@[0] == length - 1
            },
{
    assert(floyd_drawn(length, pair@[0], pair@[1]));
    let (a, b) = choose|a: usize, b: usize|
        #![trigger fast_draws((length - 1) as usize, a), fast_draws(length, b)]
        fast_draws((length - 1) as usize, a) && fast_draws(length, b) && (
            pair@[0] as nat,
            pair@[1] as nat,
        ) == floyd_pair(length as nat, a as nat, b as nat);
    assert(call_ensures(fast_random_below, ((length - 1) as usize,), a));
    assert(call_ensures(fast_random_below, (length,), b));
}

}
