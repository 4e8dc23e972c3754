//! Request sizes that vary a little, so that streams do not fall into step.
use vstd::prelude::*;

verus! {

/// The largest number of bytes that is asked for at once.
pub const CHUNK: u32 = 16384;

/// By how much a request may be larger or smaller than its base, in percent.
pub const REQUEST_JITTER_PERCENT: u32 = 10;

/// Where the sequence of rolls starts.
pub const JITTER_SEED: u64 = 0x9E37_79B9_7F4A_7C15;

/// The state of the sequence of rolls.
#[derive(Debug, Clone, Copy, PartialEq, Eq, Structural)]
pub struct JitterState {
    pub cur: u64,
}

/// The step of the sequence: three shifts, each mixed in by exclusive or.
pub open spec fn xorshift(x: u64) -> u64 {
    let a = x ^ (x << 13u64);
    let b = a ^ (a >> 7u64);
    b ^ (b << 17u64)
}

/// The low half of a state.
pub open spec fn low_half(x: u64) -> int {
    x as int % 0x1_0000_0000
}

impl JitterState {
    /// The start of the sequence.
    pub fn new() -> (r: JitterState)
        ensures
            r.cur == JITTER_SEED,
    {
        JitterState { cur: JITTER_SEED }
    }
}

/// Moves on by one step, and gives the low half of the new state.
pub fn next_jitter_roll(state: &mut JitterState) -> (r: u32)
    ensures
        final(state).cur == xorshift(old(state).cur),
        r as int == low_half(final(state).cur),
{
    let mut x: u64 = state.cur;
    x = x ^ (x << 13u64);
    x = x ^ (x >> 7u64);
    x = x ^ (x << 17u64);
    state.cur = x;
    let low: u64 = x % 0x1_0000_0000;
    low as u32
}

/// `n`, or the nearer bound where it lies outside of them.
pub open spec fn clamped(n: int, low: int, high: int) -> int {
    if n < low {
        low
    } else if n > high {
        high
    } else {
        n
    }
}

/// The percentage that a roll stands for: one of the 21 from 90 to 110.
pub open spec fn percent(roll: int) -> int {
    90 + roll % 21
}

/// A base of at least 1 and at most a chunk, scaled by a roll's percentage, and again at least 1 and
/// at most a chunk.
pub open spec fn scaled(base: int, roll: int) -> int {
    clamped(clamped(base, 1, CHUNK as int) * percent(roll) / 100, 1, CHUNK as int)
}

/// Scales a request by a roll.
pub fn scaled_chunk(base: u32, roll: u32) -> (r: u32)
    ensures
        r as int == scaled(base as int, roll as int),
{
    let base: u32 = if base < 1 {
        1
    } else if base > CHUNK {
        CHUNK
    } else {
        base
    };
    let span: u32 = REQUEST_JITTER_PERCENT * 2 + 1;
    let pct: u32 = 100 - REQUEST_JITTER_PERCENT + roll % span;
    assert(base as int * pct as int <= 16384 * 110) by (nonlinear_arith)
        requires
            base <= 16384,
            pct <= 110,
    ;
    let n: u64 = base as u64 * pct as u64 / 100;
    if n < 1 {
        1
    } else if n > CHUNK as u64 {
        CHUNK
    } else {
        n as u32
    }
}

/// The size of the next request on a base of `base` bytes. The sequence of rolls moves on by one
/// step.
pub fn jittered_chunk(base: u32, state: &mut JitterState) -> (r: u32)
    ensures
        final(state).cur == xorshift(old(state).cur),
        r as int == scaled(base as int, low_half(final(state).cur)),
{
    let roll: u32 = next_jitter_roll(state);
    scaled_chunk(base, roll)
}

/// What a 32-bit count keeps of the number of bytes that there is room for.
pub open spec fn room32(remaining: int) -> int {
    remaining % 0x1_0000_0000
}

/// The number of bytes to ask for where there is room for `remaining`: a jittered chunk, and no
/// more than the room.
pub open spec fn request(remaining: int, roll: int) -> int {
    let room = room32(remaining);
    let n = scaled(clamped(room, 1, CHUNK as int), roll);
    if n <= room {
        n
    } else {
        room
    }
}

/// The number of bytes to ask for where there is room for `remaining`. The sequence of rolls moves
/// on by one step.
pub fn request_size(remaining: usize, state: &mut JitterState) -> (r: u32)
    ensures
        final(state).cur == xorshift(old(state).cur),
        r as int == request(remaining as int, low_half(final(state).cur)),
{
    let low: u64 = remaining as u64 % 0x1_0000_0000;
    let room: u32 = low as u32;
    let base: u32 = if room < 1 {
        1
    } else if room > CHUNK {
        CHUNK
    } else {
        room
    };
    let n: u32 = jittered_chunk(base, state);
    if n <= room {
        n
    } else {
        room
    }
}

// --- Laws ---

/// The sequence of rolls never gets stuck: a state other than zero is followed by one other than
/// zero.
pub proof fn law_rolls_never_stuck(x: u64)
    requires
        x != 0,
    ensures
        xorshift(x) != 0,
{
    law_rolls_reversible(x, 0);
    assert(xorshift(0) == 0) by {
        assert(0u64 ^ (0u64 << 13u64) == 0u64) by (bit_vector);
        assert(0u64 ^ (0u64 >> 7u64) == 0u64) by (bit_vector);
        assert(0u64 ^ (0u64 << 17u64) == 0u64) by (bit_vector);
    }
}

/// The state that `k` steps lead to from `s`.
pub open spec fn steps(s: u64, k: nat) -> u64
    decreases k,
{
    if k == 0 {
        s
    } else {
        xorshift(steps(s, (k - 1) as nat))
    }
}

/// The first `k` rolls from state `s`, in order.
pub open spec fn rolls(s: u64, k: nat) -> Seq<int> {
    Seq::new(k, |i: int| low_half(steps(s, (i + 1) as nat)))
}

/// Whether call `i` of a list of calls takes the state one step on and gives that step's roll.
pub open spec fn rolls_at(states: Seq<u64>, results: Seq<int>, i: int) -> bool {
    states[i + 1] == xorshift(states[i]) && results[i] == low_half(states[i + 1])
}

/// Calls that follow one another on one state, whoever makes them, take exactly one step each: after
/// all of them the state is as many steps on as there were calls, and their results are the rolls of
/// those steps, each handed out once and in order.
pub proof fn law_calls_take_one_step_each(states: Seq<u64>, results: Seq<int>)
    requires
        states.len() == results.len() + 1,
        forall|i: int| 0 <= i < results.len() ==> #[trigger] rolls_at(states, results, i),
    ensures
        states.last() == steps(states[0], results.len()),
        results == rolls(states[0], results.len()),
        results.to_multiset() == rolls(states[0], results.len()).to_multiset(),
    decreases results.len(),
{
    if results.len() > 0 {
        let k = (results.len() - 1) as nat;
        let (front, given) = (states.drop_last(), results.drop_last());
        assert forall|i: int| 0 <= i < given.len() implies #[trigger] rolls_at(
            front,
            given,
            i,
        ) by {
            assert(rolls_at(states, results, i));
        }
        law_calls_take_one_step_each(front, given);
        assert(rolls_at(states, results, k as int));
        assert(results.drop_last() == rolls(states[0], k));
        assert(results =~= results.drop_last().push(results.last()));
        assert(rolls(states[0], results.len()) =~= rolls(states[0], k).push(results.last()));
    } else {
        assert(results =~= rolls(states[0], 0));
    }
}

/// A step mixes eight shifted copies of the state: each combination of a shift up by 13, a shift down by
/// 7 and a shift up by 17, in that order.
pub proof fn law_step_mixes_eight_copies(x: u64)
    ensures
        xorshift(x) == x ^ (x << 13u64) ^ (x >> 7u64) ^ ((x << 13u64) >> 7u64) ^ (x << 17u64) ^ ((x
            << 13u64) << 17u64) ^ ((x >> 7u64) << 17u64) ^ (((x << 13u64) >> 7u64) << 17u64),
{
    let a = x ^ (x << 13u64);
    let b = a ^ (a >> 7u64);
    assert(b ^ (b << 17u64) == x ^ (x << 13u64) ^ (x >> 7u64) ^ ((x << 13u64) >> 7u64) ^ (x
        << 17u64) ^ ((x << 13u64) << 17u64) ^ ((x >> 7u64) << 17u64) ^ (((x << 13u64) >> 7u64)
        << 17u64)) by (bit_vector)
        requires
            a == x ^ (x << 13u64),
            b == a ^ (a >> 7u64),
    ;
}

/// A roll is the low 32 bits of its state.
pub proof fn law_roll_is_the_low_bits(x: u64)
    ensures
        low_half(x) == (x & 0xFFFF_FFFFu64),
{
    assert(x & 0xFFFF_FFFFu64 == x % 0x1_0000_0000u64) by (bit_vector);
}

/// No two states are followed by the same state.
pub proof fn law_rolls_reversible(x: u64, y: u64)
    ensures
        xorshift(x) == xorshift(y) ==> x == y,
{
    let (xa, ya) = (x ^ (x << 13u64), y ^ (y << 13u64));
    let (xb, yb) = (xa ^ (xa >> 7u64), ya ^ (ya >> 7u64));
    assert(xb ^ (xb << 17u64) == yb ^ (yb << 17u64) ==> xb == yb) by (bit_vector);
    assert(xa ^ (xa >> 7u64) == ya ^ (ya >> 7u64) ==> xa == ya) by (bit_vector);
    assert(x ^ (x << 13u64) == y ^ (y << 13u64) ==> x == y) by (bit_vector);
}

/// A request that is scaled is at least 1 and at most a chunk, and lies within a tenth of its base,
/// rounded down.
pub proof fn law_scaled_within_a_tenth(base: int, roll: int)
    requires
        1 <= base <= CHUNK,
    ensures
        1 <= scaled(base, roll) <= CHUNK,
        base * 90 / 100 <= scaled(base, roll) <= base * 110 / 100,
{
    let p = percent(roll);
    assert(90 <= p <= 110);
    assert(base * 90 <= base * p <= base * 110) by (nonlinear_arith)
        requires
            1 <= base,
            90 <= p <= 110,
    ;
}

/// Some roll gives nine tenths of a base, some roll the base itself, and some roll eleven tenths of it,
/// cut to a chunk.
pub proof fn law_scaled_extremes(base: int)
    requires
        2 <= base <= CHUNK,
    ensures
        scaled(base, 0) == base * 90 / 100,
        scaled(base, 10) == base,
        scaled(base, 20) == clamped(base * 110 / 100, 1, CHUNK as int),
{
    assert(percent(0) == 90 && percent(10) == 100 && percent(20) == 110);
    assert(base * percent(10) == base * 100);
    assert(base * percent(20) == base * 110);
}

/// A request is its base by a percentage, rounded down: the base has to lie between 1 byte and a chunk,
/// and is moved to the nearer of the two where it does not; the percentage is 90 and the remainder of the
/// roll by 21; and what would be less than 1 byte is 1, what would be more than a chunk a chunk.
pub proof fn law_scaled_by_its_percentage(base: int, roll: int)
    requires
        0 <= roll,
    ensures
        base < 1 ==> scaled(base, roll) == scaled(1, roll),
        base > 16384 ==> scaled(base, roll) == scaled(16384, roll),
        1 <= base <= 16384 ==> ({
            let n = scaled(base, roll);
            let product = base * (90 + roll % 21);
            &&& 100 <= product < 1638500 ==> n * 100 <= product < n * 100 + 100
            &&& product < 100 ==> n == 1
            &&& product >= 1638500 ==> n == 16384
        }),
{
    if 1 <= base <= 16384 {
        let product = base * (90 + roll % 21);
        assert(product >= 90) by (nonlinear_arith)
            requires
                product == base * (90 + roll % 21),
                base >= 1,
                roll % 21 >= 0,
        ;
        assert(clamped(base, 1, CHUNK as int) == base);
        assert(scaled(base, roll) == clamped(product / 100, 1, 16384));
    }
}

/// The request for a given room is a scaled base of that room, as far as 32 bits count it, and no more
/// than the room: where the count is zero nothing is asked for, a room of more than a chunk is like one
/// of a chunk, and in a smaller one the request is cut to the room.
pub proof fn law_request_goes_by_the_room(remaining: int, roll: int)
    requires
        0 <= remaining,
        0 <= roll,
    ensures
        ({
            let room = remaining % 0x1_0000_0000;
            &&& room == 0 ==> request(remaining, roll) == 0
            &&& room >= 16384 ==> request(remaining, roll) == scaled(16384, roll)
            &&& 0 < room < 16384 && scaled(room, roll) <= room ==> request(remaining, roll)
                == scaled(room, roll)
            &&& 0 < room < 16384 && scaled(room, roll) > room ==> request(remaining, roll) == room
        }),
{
    let room = remaining % 0x1_0000_0000;
    let base = clamped(room, 1, CHUNK as int);
    law_scaled_within_a_tenth(base, roll);
}

/// A request never asks for more than there is room for, nor for more than a chunk; and it asks for
/// something wherever there is room, unless the room is a multiple of 2^32 bytes.
pub proof fn law_request_fits(remaining: int, roll: int)
    requires
        0 <= remaining,
    ensures
        0 <= request(remaining, roll) <= remaining,
        request(remaining, roll) <= CHUNK,
        request(remaining, roll) > 0 <==> remaining % 0x1_0000_0000 != 0,
{
    let room = room32(remaining);
    let base = clamped(room, 1, CHUNK as int);
    law_scaled_within_a_tenth(base, roll);
}

} // verus!
