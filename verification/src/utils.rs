//! Pseudo-random number generation for the renderer.
//!
//! The generator is a linear congruential generator over `u32`. Its state is
//! an explicit handle rather than process-global mutable state, so a render
//! that must be reproducible passes one handle along and a parallel render
//! gives each worker a handle of its own. Two independent streams are kept,
//! mirroring the renderer's two uses: a general stream (`next_rand`) for
//! scene sampling and a deterministic stream (`deterministic_next_rand`) for
//! golden-image comparison runs.

use vstd::prelude::*;

verus! {

use vstd::arithmetic::div_mod::{lemma_add_mod_noop, lemma_mod_sub_multiples_vanish};

/// Multiplier of the linear congruential step.
pub const LCG_MULTIPLIER: u32 = 1103515245;

/// Increment of the linear congruential step.
pub const LCG_INCREMENT: u32 = 12345;

/// The state that follows `s` in the linear congruential sequence:
/// `(s * LCG_MULTIPLIER + LCG_INCREMENT) mod 2^32`.
pub open spec fn lcg_next(s: u32) -> u32 {
    ((s * LCG_MULTIPLIER + LCG_INCREMENT) % 0x1_0000_0000) as u32
}

/// The value handed out when the generator steps out of state `s`:
/// bits 16..31 of the successor state, always below 32768.
pub open spec fn lcg_output(s: u32) -> u32 {
    ((lcg_next(s) / 65536) % 32768) as u32
}

/// The state reached from `seed` after `n` steps.
pub open spec fn lcg_state_after(seed: u32, n: nat) -> u32
    decreases n,
{
    if n == 0 {
        seed
    } else {
        lcg_next(lcg_state_after(seed, (n - 1) as nat))
    }
}

/// The `n`-th value (counting from 0) drawn from a generator seeded with `seed`.
pub open spec fn lcg_nth_output(seed: u32, n: nat) -> u32 {
    lcg_output(lcg_state_after(seed, n))
}

/// Law: the random sequence may be split at any point. Advancing `m + n`
/// steps from a seed reaches the same state as first advancing `m` steps and
/// then `n` more. A reproducible render may therefore hand the generator from
/// one phase (or worker) to the next without changing the stream.
pub proof fn lemma_lcg_stream_split(seed: u32, m: nat, n: nat)
    ensures
        lcg_state_after(seed, m + n) == lcg_state_after(lcg_state_after(seed, m), n),
    decreases n,
{
    if n > 0 {
        lemma_lcg_stream_split(seed, m, (n - 1) as nat);
    }
}

/// Law: the sequence of drawn values is a function of the seed alone, so two
/// runs seeded alike draw identical values at every position.
pub proof fn lemma_lcg_reproducible(seed_a: u32, seed_b: u32, n: nat)
    ensures
        seed_a == seed_b ==> lcg_nth_output(seed_a, n) == lcg_nth_output(seed_b, n),
{
}

/// Both random streams of the renderer, as one explicit handle.
pub struct RandState {
    /// State of the general sampling stream.
    pub next_rand: u32,
    /// State of the stream reserved for deterministic comparison runs.
    pub deterministic_next_rand: u32,
}

impl RandState {
    /// A fresh handle; both streams start in state 1.
    pub fn new() -> (r: Self)
        ensures
            r.next_rand == 1,
            r.deterministic_next_rand == 1,
    {
        RandState { next_rand: 1, deterministic_next_rand: 1 }
    }
}

/// Steps one raw stream: advances the state once and hands out bits 16..31
/// of the new state.
pub fn next_rand_u32(state: &mut u32) -> (r: u32)
    ensures
        *final(state) == lcg_next(*old(state)),
        r == lcg_output(*old(state)),
        r < 32768,
{
    proof {
        let s = *state as int;
        let m = 0x1_0000_0000int;
        lemma_add_mod_noop(s * LCG_MULTIPLIER, LCG_INCREMENT as int, m);
        lemma_mod_sub_multiples_vanish(s * LCG_MULTIPLIER % m + LCG_INCREMENT, m);
    }
    *state = state.wrapping_mul(LCG_MULTIPLIER).wrapping_add(LCG_INCREMENT);
    (*state / 65536) % 32768
}

/// Reseeds the general sampling stream; the deterministic stream is untouched.
pub fn seed_rand(state: &mut RandState, seed: u32)
    ensures
        final(state).next_rand == seed,
        final(state).deterministic_next_rand == old(state).deterministic_next_rand,
{
    state.next_rand = seed;
}

/// Draws from the general sampling stream.
pub fn rand_u32(state: &mut RandState) -> (r: u32)
    ensures
        final(state).next_rand == lcg_next(old(state).next_rand),
        final(state).deterministic_next_rand == old(state).deterministic_next_rand,
        r == lcg_output(old(state).next_rand),
        r < 32768,
{
    next_rand_u32(&mut state.next_rand)
}

/// Draws from the deterministic comparison stream.
pub fn det_rand_u32(state: &mut RandState) -> (r: u32)
    ensures
        final(state).deterministic_next_rand == lcg_next(old(state).deterministic_next_rand),
        final(state).next_rand == old(state).next_rand,
        r == lcg_output(old(state).deterministic_next_rand),
        r < 32768,
{
    next_rand_u32(&mut state.deterministic_next_rand)
}

} // verus!
