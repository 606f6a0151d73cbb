//! A small deterministic random number generator (SplitMix64), so that a seed
//! always yields the same problem.
use vstd::prelude::*;

use vstd::wrapping::u64_specs;

verus! {

/// The increment of the SplitMix64 state.
pub const GAMMA: u64 = 0x9E37_79B9_7F4A_7C15;

pub const MIX_1: u64 = 0xBF58_476D_1CE4_E5B9;

pub const MIX_2: u64 = 0x94D0_49BB_1331_11EB;

/// The state after one step.
pub open spec fn advance(state: u64) -> u64 {
    u64_specs::wrapping_add(state, GAMMA)
}

/// The output drawn from an advanced state.
pub open spec fn mix(s: u64) -> u64 {
    let z1 = u64_specs::wrapping_mul(s ^ (s >> 30u64), MIX_1);
    let z2 = u64_specs::wrapping_mul(z1 ^ (z1 >> 27u64), MIX_2);
    z2 ^ (z2 >> 31u64)
}

/// The state after `n` steps from `seed`.
pub open spec fn state_after(seed: u64, n: nat) -> u64
    decreases n,
{
    if n == 0 {
        seed
    } else {
        advance(state_after(seed, (n - 1) as nat))
    }
}

/// The `n`-th value (from 0) that a generator seeded with `seed` draws.
pub open spec fn nth_draw(seed: u64, n: nat) -> u64 {
    mix(state_after(seed, n + 1))
}

/// The integer in `[min, max]` that a raw draw selects: `min` plus the draw
/// modulo the width of the range.
pub open spec fn pick(min: i64, max: i64, draw: u64) -> int {
    min + (draw as int) % (max - min + 1)
}

pub struct DeterministicRng {
    state: u64,
}

impl View for DeterministicRng {
    type V = u64;

    closed spec fn view(&self) -> u64 {
        self.state
    }
}

impl DeterministicRng {
    /// A generator whose state is the seed.
    pub fn new(seed: u64) -> (r: Self)
        ensures
            r@ == seed,
    {
        DeterministicRng { state: seed }
    }

    /// Advances the state and draws the next value.
    pub fn next_u64(&mut self) -> (r: u64)
        ensures
            final(self)@ == advance(old(self)@),
            r == mix(final(self)@),
    {
        self.state = self.state.wrapping_add(GAMMA);
        let z = self.state;
        let z = (z ^ (z >> 30)).wrapping_mul(MIX_1);
        let z = (z ^ (z >> 27)).wrapping_mul(MIX_2);
        z ^ (z >> 31)
    }

    /// A uniform integer in `[min, max]` from one draw; `None`, drawing
    /// nothing, when `min > max`.
    pub fn sample_integer(&mut self, min: i64, max: i64) -> (r: Option<i64>)
        ensures
            min > max ==> r is None && final(self)@ == old(self)@,
            min <= max ==> final(self)@ == advance(old(self)@) && r == Some(pick(min, max, mix(final(self)@)) as i64),
            r matches Some(v) ==> min <= v <= max && v == pick(min, max, mix(final(self)@)),
    {
        if min > max {
            return None;
        }
        let range: u128 = (max as i128 - min as i128 + 1) as u128;
        let draw = self.next_u64();
        let offset: u128 = (draw as u128) % range;
        assert(offset < range);
        let v: i128 = min as i128 + offset as i128;
        assert(v == pick(min, max, draw));
        Some(v as i64)
    }
}

/// A seed fixes the whole sequence of draws: the state after `n + 1` draws
/// is one step past the state after `n`, and the `n`-th draw is the mix of it.
/// With the contract of `next_u64`, the `n`-th call on a generator made by
/// `new(seed)` returns `nth_draw(seed, n)`.
pub proof fn lemma_draws_follow_seed(seed: u64, n: nat)
    ensures
        state_after(seed, n + 1) == advance(state_after(seed, n)),
        nth_draw(seed, n) == mix(advance(state_after(seed, n))),
{
}

/// The seed plus `n` increments, modulo 2^64.
pub open spec fn seed_plus(seed: u64, n: nat) -> int {
    (seed as int + n * 0x9E37_79B9_7F4A_7C15int) % 0x1_0000_0000_0000_0000int
}

proof fn lemma_state_is_seed_plus(seed: u64, n: nat)
    ensures
        state_after(seed, n) as int == seed_plus(seed, n),
    decreases n,
{
    if n == 0 {
        vstd::arithmetic::div_mod::lemma_small_mod(seed as nat, 0x1_0000_0000_0000_0000nat);
    } else {
        lemma_state_is_seed_plus(seed, (n - 1) as nat);
        let prev = state_after(seed, (n - 1) as nat);
        let y = seed as int + (n - 1) * 0x9E37_79B9_7F4A_7C15int;
        assert(y + 0x9E37_79B9_7F4A_7C15int == seed as int + n * 0x9E37_79B9_7F4A_7C15int);
        vstd::arithmetic::div_mod::lemma_add_mod_noop_right(0x9E37_79B9_7F4A_7C15int, y, 0x1_0000_0000_0000_0000int);
        let t = prev as int + 0x9E37_79B9_7F4A_7C15int;
        if t > u64::MAX {
            vstd::arithmetic::div_mod::lemma_mod_sub_multiples_vanish(t, 0x1_0000_0000_0000_0000int);
            vstd::arithmetic::div_mod::lemma_small_mod((t - 0x1_0000_0000_0000_0000int) as nat, 0x1_0000_0000_0000_0000nat);
        } else {
            vstd::arithmetic::div_mod::lemma_small_mod(t as nat, 0x1_0000_0000_0000_0000nat);
        }
    }
}

/// Law: the state after `n` draws is the seed plus `n` increments, modulo
/// 2^64, and the `n`-th draw (from 0) is the mix of the seed plus `n + 1`
/// increments; so equal seeds give equal sequences.
pub proof fn lemma_draws_closed_form(seed: u64, n: nat)
    ensures
        state_after(seed, n) as int == seed_plus(seed, n),
        nth_draw(seed, n) == mix(seed_plus(seed, n + 1) as u64),
{
    lemma_state_is_seed_plus(seed, n);
    lemma_state_is_seed_plus(seed, n + 1);
}

} // verus!
