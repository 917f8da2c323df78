//! Named deterministic random streams.
use vstd::prelude::*;

verus! {

/// A named deterministic random stream. Subsystems use separate stream IDs so
/// adding a random choice to terrain generation cannot alter family generation.
#[derive(Clone, Copy, Debug, PartialEq, Eq, Structural)]
pub struct StreamId(pub u64);

/// The identity of the stream that terrain generation draws from.
pub const TERRAIN_STREAM: u64 = 0x0054_4552_5241_494e;

impl StreamId {
    /// The stream terrain generation draws from.
    pub fn terrain() -> (id: StreamId)
        ensures
            id.0 == TERRAIN_STREAM,
    {
        StreamId(TERRAIN_STREAM)
    }
}

/// The increment added to the state before every draw.
pub const GOLDEN_GAMMA: u64 = 0x9e37_79b9_7f4a_7c15;

/// The 64-bit finalizer that turns a state into an output.
pub open spec fn mix64_spec(value: u64) -> u64 {
    let a = (value ^ (value >> 30u64)).wrapping_mul(0xbf58_476d_1ce4_e5b9u64);
    let b = (a ^ (a >> 27u64)).wrapping_mul(0x94d0_49bb_1331_11ebu64);
    b ^ (b >> 31u64)
}

pub fn mix64(value: u64) -> (mixed: u64)
    ensures
        mixed == mix64_spec(value),
{
    let a = (value ^ (value >> 30u64)).wrapping_mul(0xbf58_476d_1ce4_e5b9u64);
    let b = (a ^ (a >> 27u64)).wrapping_mul(0x94d0_49bb_1331_11ebu64);
    b ^ (b >> 31u64)
}

/// Undoing a wrapping multiplication: multiplying again by the inverse of the
/// factor modulo 2^64 gives the original number back.
proof fn lemma_multiplication_undone(x: u64, factor: u64, inverse: u64)
    requires
        (factor as int * inverse as int) % 0x1_0000_0000_0000_0000 == 1,
    ensures
        (x.wrapping_mul(factor) as int * inverse as int) % 0x1_0000_0000_0000_0000 == x,
{
    let m: int = 0x1_0000_0000_0000_0000;
    let product = x as int * factor as int;
    vstd::arithmetic::div_mod::lemma_mod_bound(product, m);
    assert(x.wrapping_mul(factor) as int == product % m);
    vstd::arithmetic::div_mod::lemma_mul_mod_noop_left(product, inverse as int, m);
    vstd::arithmetic::mul::lemma_mul_is_associative(x as int, factor as int, inverse as int);
    vstd::arithmetic::div_mod::lemma_mul_mod_noop_right(x as int, factor as int * inverse as int, m);
    vstd::arithmetic::div_mod::lemma_small_mod(x as nat, m as nat);
}

/// Xor with a right shift of itself loses nothing.
proof fn lemma_shift_mix_injective(x: u64, y: u64)
    requires
        x ^ (x >> 30u64) == y ^ (y >> 30u64) || x ^ (x >> 27u64) == y ^ (y >> 27u64) || x ^ (x >> 31u64) == y
            ^ (y >> 31u64),
    ensures
        x == y,
{
    assert(x ^ (x >> 30u64) == y ^ (y >> 30u64) ==> x == y) by (bit_vector);
    assert(x ^ (x >> 27u64) == y ^ (y >> 27u64) ==> x == y) by (bit_vector);
    assert(x ^ (x >> 31u64) == y ^ (y >> 31u64) ==> x == y) by (bit_vector);
}

/// The finalizer is a bijection of the 64-bit numbers: different states
/// always give different outputs.
pub proof fn law_mixing_loses_nothing(x: u64, y: u64)
    requires
        mix64_spec(x) == mix64_spec(y),
    ensures
        x == y,
{
    let ax = (x ^ (x >> 30u64)).wrapping_mul(0xbf58_476d_1ce4_e5b9u64);
    let ay = (y ^ (y >> 30u64)).wrapping_mul(0xbf58_476d_1ce4_e5b9u64);
    let bx = (ax ^ (ax >> 27u64)).wrapping_mul(0x94d0_49bb_1331_11ebu64);
    let by = (ay ^ (ay >> 27u64)).wrapping_mul(0x94d0_49bb_1331_11ebu64);
    lemma_shift_mix_injective(bx, by);
    lemma_multiplication_undone(ax ^ (ax >> 27u64), 0x94d0_49bb_1331_11ebu64, 0x3196_42b2_d24d_8ec3u64);
    lemma_multiplication_undone(ay ^ (ay >> 27u64), 0x94d0_49bb_1331_11ebu64, 0x3196_42b2_d24d_8ec3u64);
    lemma_shift_mix_injective(ax, ay);
    lemma_multiplication_undone(x ^ (x >> 30u64), 0xbf58_476d_1ce4_e5b9u64, 0x96de_1b17_3f11_9089u64);
    lemma_multiplication_undone(y ^ (y >> 30u64), 0xbf58_476d_1ce4_e5b9u64, 0x96de_1b17_3f11_9089u64);
    lemma_shift_mix_injective(x, y);
}

/// Streams of one campaign with different identities start from different
/// states, so they draw independently named sequences.
pub proof fn law_streams_are_distinct(campaign_seed: u64, first: StreamId, second: StreamId)
    requires
        first != second,
    ensures
        mix64_spec(campaign_seed ^ first.0) != mix64_spec(campaign_seed ^ second.0),
{
    if mix64_spec(campaign_seed ^ first.0) == mix64_spec(campaign_seed ^ second.0) {
        law_mixing_loses_nothing(campaign_seed ^ first.0, campaign_seed ^ second.0);
        let a = first.0;
        let b = second.0;
        assert(campaign_seed ^ a == campaign_seed ^ b ==> a == b) by (bit_vector);
    }
}

/// The state of a stream after `count` draws from `state`.
pub open spec fn state_after_draws(state: u64, count: nat) -> u64 {
    ((state as int + count * GOLDEN_GAMMA as int) % 0x1_0000_0000_0000_0000) as u64
}

/// Each draw moves the state one step on: the state after one more draw is
/// the state after `count` draws advanced as `next_u64` advances it.
pub proof fn law_draw_advances_state(state: u64, count: nat)
    ensures
        state_after_draws(state, count + 1) == state_after_draws(state, count).wrapping_add(GOLDEN_GAMMA),
{
    let m: int = 0x1_0000_0000_0000_0000;
    let g = GOLDEN_GAMMA as int;
    let x = state as int + count * g;
    assert((count + 1) * g == count * g + g) by (nonlinear_arith);
    vstd::arithmetic::div_mod::lemma_add_mod_noop(x, g, m);
    vstd::arithmetic::div_mod::lemma_small_mod(g as nat, m as nat);
    vstd::arithmetic::div_mod::lemma_mod_bound(x, m);
    let r = x % m;
    if r + g >= m {
        vstd::arithmetic::div_mod::lemma_mod_sub_multiples_vanish(r + g, m);
        vstd::arithmetic::div_mod::lemma_small_mod((r + g - m) as nat, m as nat);
    } else {
        vstd::arithmetic::div_mod::lemma_small_mod((r + g) as nat, m as nat);
    }
}

/// A stream never repeats itself within 2^64 draws: the draws numbered
/// `first` and `later` (counting from zero) differ whenever they lie fewer than
/// 2^64 draws apart.
pub proof fn law_draws_never_repeat(state: u64, first: nat, later: nat)
    requires
        first < later,
        later - first < 0x1_0000_0000_0000_0000,
    ensures
        mix64_spec(state_after_draws(state, first + 1)) != mix64_spec(state_after_draws(state, later + 1)),
{
    let m: int = 0x1_0000_0000_0000_0000;
    let g = GOLDEN_GAMMA as int;
    let inverse: int = 0xf1de_83e1_9937_733d;
    if mix64_spec(state_after_draws(state, first + 1)) == mix64_spec(state_after_draws(state, later + 1)) {
        law_mixing_loses_nothing(state_after_draws(state, first + 1), state_after_draws(state, later + 1));
        let x = state as int + (first + 1) * g;
        let y = state as int + (later + 1) * g;
        vstd::arithmetic::div_mod::lemma_mod_bound(x, m);
        vstd::arithmetic::div_mod::lemma_mod_bound(y, m);
        assert(x % m == y % m);
        vstd::arithmetic::div_mod::lemma_mod_equivalence(y, x, m);
        let d: int = later - first;
        assert(y - x == d * g) by (nonlinear_arith)
            requires
                x == state as int + (first + 1) * g,
                y == state as int + (later + 1) * g,
                d == later - first,
        ;
        assert((d * g) % m == 0);
        vstd::arithmetic::div_mod::lemma_mul_mod_noop_left(d * g, inverse, m);
        assert(((d * g) % m) * inverse == 0);
        vstd::arithmetic::mul::lemma_mul_is_associative(d, g, inverse);
        vstd::arithmetic::div_mod::lemma_mul_mod_noop_right(d, g * inverse, m);
        assert((g * inverse) % m == 1);
        vstd::arithmetic::div_mod::lemma_small_mod(d as nat, m as nat);
        assert(d * 1 == d);
    }
}

#[derive(Clone, Debug, PartialEq, Eq)]
pub struct RandomStream {
    state: u64,
}

impl RandomStream {
    /// The internal state, which alone decides every later draw.
    pub closed spec fn state(self) -> u64 {
        self.state
    }

    pub fn new(campaign_seed: u64, stream: StreamId) -> (r: Self)
        ensures
            r.state() == mix64_spec(campaign_seed ^ stream.0),
    {
        RandomStream { state: mix64(campaign_seed ^ stream.0) }
    }

    /// Advances the state by the golden gamma and returns the mixed new state.
    pub fn next_u64(&mut self) -> (value: u64)
        ensures
            final(self).state() == old(self).state().wrapping_add(GOLDEN_GAMMA),
            value == mix64_spec(final(self).state()),
    {
        self.state = self.state.wrapping_add(GOLDEN_GAMMA);
        mix64(self.state)
    }

    /// True with chance one in `denominator`; a zero denominator is never true
    /// and draws nothing.
    pub fn one_in(&mut self, denominator: u64) -> (hit: bool)
        ensures
            denominator == 0 ==> !hit && final(self).state() == old(self).state(),
            denominator != 0 ==> {
                &&& final(self).state() == old(self).state().wrapping_add(GOLDEN_GAMMA)
                &&& hit == (mix64_spec(final(self).state()) % denominator == 0)
            },
    {
        if denominator == 0 {
            return false;
        }
        let value = self.next_u64();
        value % denominator == 0
    }
}

} // verus!
