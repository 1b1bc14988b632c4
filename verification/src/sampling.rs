//! Drawing two distinct positions at random.

use crate::ext::random::random_below;
use rand::rngs::SmallRng;
use vstd::prelude::*;

verus! {

/// Whether the generator, asked for a number below `len`, gave the number.
pub closed spec fn draws(rng: &mut SmallRng, len: usize, number: usize) -> bool {
    call_ensures(random_below, (rng, len), number)
}

/// The `raw`-th of the positions other than `first`.
pub open spec fn other_position(first: nat, raw: nat) -> nat {
    if raw >= first {
        raw + 1
    } else {
        raw
    }
}

/// Turns a number below `len - 1` into a position below `len` other than `first`.
pub fn skip_position(first: usize, raw: usize, len: usize) -> (second: usize)
    requires
        first < len,
        raw < len - 1,
    ensures
        second == other_position(first as nat, raw as nat),
        second < len,
        second != first,
{
    if raw >= first {
        raw + 1
    } else {
        raw
    }
}

/// Whether two draws gave the two positions: the first is a number drawn below `len`, the second the
/// position that a number drawn below `len - 1` stands for.
pub open spec fn drew_two(
    one: &mut SmallRng,
    two: &mut SmallRng,
    len: usize,
    first: usize,
    second: usize,
) -> bool {
    &&& len >= 2
    &&& draws(one, len, first)
    &&& exists|raw: usize| #[trigger]
        draws(two, (len - 1) as usize, raw) && second == other_position(first as nat, raw as nat)
}

/// Whether some two draws gave the two positions.
pub open spec fn two_drawn(len: usize, first: usize, second: usize) -> bool {
    exists|one: &mut SmallRng, two: &mut SmallRng| #[trigger]
        drew_two(one, two, len, first, second)
}

/// Draws two distinct positions below `len`, the first and then the second, from one generator.
pub fn draw_two(rng: &mut SmallRng, len: usize) -> (pair: (usize, usize))
    requires
        len >= 2,
    ensures
        pair.0 < len,
        pair.1 < len,
        pair.0 != pair.1,
        two_drawn(len, pair.0, pair.1),
        exists|one: &mut SmallRng, two: &mut SmallRng|
            {
                &&& #[trigger] drew_two(one, two, len, pair.0, pair.1)
                &&& *one == *old(rng)
                &&& *two == *final(one)
                &&& *final(rng) == *final(two)
            },
{
    let ghost before = *rng;
    let first = random_below(rng, len);
    let ghost between = *rng;
    let raw = random_below(rng, len - 1);
    let second = skip_position(first, raw, len);
    proof {
        let one = choose|one: &mut SmallRng|
            *one == before && *final(one) == between && #[trigger] call_ensures(
                random_below,
                (one, len),
                first,
            );
        let two = choose|two: &mut SmallRng|
            *two == between && *final(two) == *rng && #[trigger] call_ensures(
                random_below,
                (two, (len - 1) as usize),
                raw,
            );
        assert(draws(one, len, first));
        assert(draws(two, (len - 1) as usize, raw));
        let pair = (first, second);
        assert(drew_two(one, two, len, pair.0, pair.1));
    }
    (first, second)
}

/// Each pair of distinct positions comes of exactly one pair of numbers, the first below `len` and
/// the second below `len - 1`: pairs are drawn uniformly where the numbers are.
pub proof fn skipping_draws_uniformly(len: nat, first: nat, second: nat)
    requires
        first < len,
        second < len,
        first != second,
    ensures
        exists|raw: nat| raw < len - 1 && #[trigger] other_position(first, raw) == second,
        forall|a: nat, b: nat|
            #![trigger other_position(first, a), other_position(first, b)]
            other_position(first, a) == second && other_position(first, b) == second ==> a == b,
{
    let raw = if second > first {
        (second - 1) as nat
    } else {
        second
    };
    assert(other_position(first, raw) == second);
}

/// Floyd's sample of two positions below `length`, out of `a` below `length - 1` and `b` below
/// `length`.
pub open spec fn floyd_pair(length: nat, a: nat, b: nat) -> (nat, nat) {
    (
        if a == b {
            (length - 1) as nat
        } else {
            a
        },
        b,
    )
}

/// Turns a number below `length - 1` and one below `length` into two distinct positions.
pub fn floyd2(length: usize, a: usize, b: usize) -> (pair: [usize; 2])
    requires
        a < length - 1,
        b < length,
    ensures
        (pair@[0] as nat, pair@[1] as nat) == floyd_pair(length as nat, a as nat, b as nat),
        pair@[0] < length,
        pair@[1] < length,
        pair@[0] != pair@[1],
{
    let a: usize = if a == b {
        length - 1
    } else {
        a
    };
    [a, b]
}

/// Each pair of distinct positions comes of exactly one pair of numbers: pairs are drawn uniformly
/// where the numbers are.
pub proof fn floyd_draws_uniformly(length: nat, first: nat, second: nat)
    requires
        first < length,
        second < length,
        first != second,
    ensures
        exists|a: nat, b: nat|
            a < length - 1 && b < length && #[trigger] floyd_pair(length, a, b) == (first, second),
        forall|a: nat, b: nat, c: nat, d: nat|
            #![trigger floyd_pair(length, a, b), floyd_pair(length, c, d)]
            a < length - 1 && c < length - 1 && floyd_pair(length, a, b) == (first, second)
                && floyd_pair(length, c, d) == (first, second) ==> a == c && b == d,
{
    let a = if first == length - 1 {
        second
    } else {
        first
    };
    assert(floyd_pair(length, a, second) == (first, second));
}

/// The other positions keep their order: a number below the first position is the position itself, any
/// other the one behind.
pub proof fn the_first_position_is_skipped(first: usize, raw: usize, len: usize, second: usize)
    requires
        first < len,
        raw < len - 1,
        call_ensures(skip_position, (first, raw, len), second),
    ensures
        raw < first ==> second == raw,
        raw >= first ==> second == raw + 1,
        second != first,
        second < len,
{
}

/// Of Floyd's sample, the second position is the second number, and the first is the first number unless
/// that is taken, where it is the last position.
pub proof fn floyd_takes_the_last_where_both_are_equal(
    length: usize,
    a: usize,
    b: usize,
    pair: [usize; 2],
)
    requires
        a < length - 1,
        b < length,
        call_ensures(floyd2, (length, a, b), pair),
    ensures
        pair@[1] == b,
        a != b ==> pair@[0] == a,
        a == b ==> pair@[0] == length - 1,
{
}

/// The two positions are drawn from the generator: it is asked for a number below `len`, which is the
/// first position, and then for one below `len - 1`, which stands for one of the others.
pub(crate) proof fn positions_are_drawn_from_the_generator(
    one: &mut SmallRng,
    two: &mut SmallRng,
    len: usize,
    first: usize,
    second: usize,
)
    requires
        drew_two(one, two, len, first, second),
    ensures
        call_ensures(random_below, (one, len), first),
        exists|raw: usize| #[trigger]
            call_ensures(random_below, (two, (len - 1) as usize), raw) && second == (if raw
                < first {
                raw as int
            } else {
                raw + 1
            }),
{
    let raw = choose|raw: usize| #[trigger]
        draws(two, (len - 1) as usize, raw) && second == other_position(first as nat, raw as nat);
    assert(call_ensures(random_below, (two, (len - 1) as usize), raw));
}

/// The two positions that are drawn are two, and both are below the bound.
pub proof fn positions_that_are_drawn_are_positions(
    one: &mut SmallRng,
    two: &mut SmallRng,
    len: usize,
    first: usize,
    second: usize,
)
    requires
        drew_two(one, two, len, first, second),
    ensures
        len >= 2,
        first < len,
        second < len,
        first != second,
{
    let raw = choose|raw: usize| #[trigger]
        draws(two, (len - 1) as usize, raw) && second == other_position(first as nat, raw as nat);
    assert(call_ensures(random_below, (one, len), first));
    assert(call_ensures(random_below, (two, (len - 1) as usize), raw));
}

}
